use crate::filter::MetricsFilter;
use crate::laws::lemma_snapshot_without_sets;
use crate::laws::lemma_unfiltered_snapshot_holds_all_kept;
use crate::metrics::Counter;
use crate::metrics::Gauge;
use crate::metrics::Histogram;
use crate::metrics::Meter;
use crate::metrics::Metric;
use crate::metrics::MetricKind;
use crate::metrics::Timer;
use crate::mset::SetHandle;
use crate::names::without;
use crate::names::NameMap;
use crate::snapshot::absorb;
use crate::snapshot::chosen;
use crate::snapshot::lemma_keep_all;
use crate::snapshot::lemma_chosen_is_sifted;
use crate::snapshot::merged;
use crate::snapshot::sifted;
use crate::snapshot::verdicts;
use crate::snapshot::views;
use std::sync::Arc;
use vstd::prelude::*;

verus! {

/// Why the registry turns a request down.
#[derive(Clone, Copy, Debug, PartialEq, Eq, Structural)]
pub enum RegistryError {
    /// The name is bound to an instrument of another kind than the one asked for.
    KindMismatch,
    /// A thread panicked while it held the lock of a shared registry.
    LockPoisoned,
}

/// What a registry holds, as mathematics.
#[verifier::ext_equal]
pub struct RegistryState {
    /// The instruments kept in the registry, by name.
    pub metrics: Map<Seq<char>, Metric>,
    /// The names under which metrics sets are registered, oldest registration first.
    pub set_names: Seq<Seq<char>>,
    /// The registered metrics sets, by registration name.
    pub sets: Map<Seq<char>, SetHandle>,
    /// The filter that snapshots go through, if there is one.
    pub filter: Option<Box<dyn MetricsFilter>>,
}

impl RegistryState {
    /// A registry that holds nothing.
    pub open spec fn empty() -> RegistryState {
        RegistryState {
            metrics: Map::empty(),
            set_names: Seq::empty(),
            sets: Map::empty(),
            filter: None,
        }
    }

    /// The registration names are as many as the registered sets: no name is listed
    /// twice, and a name is listed exactly where a set is registered under it.
    pub open spec fn valid(self) -> bool {
        &&& self.set_names.no_duplicates()
        &&& forall|name: Seq<char>| self.sets.contains_key(name) <==> self.set_names.contains(name)
    }

    /// Whether `name` may stand for an instrument of kind `kind`: it is free, or bound to
    /// that kind already.
    pub open spec fn admits(self, name: Seq<char>, kind: MetricKind) -> bool {
        self.metrics.contains_key(name) ==> self.metrics[name].kind() == kind
    }

    /// What `name` is bound to, if it is bound.
    pub open spec fn binding(self, name: Seq<char>) -> Option<Metric> {
        if self.metrics.contains_key(name) {
            Some(self.metrics[name])
        } else {
            None
        }
    }

    /// This state with `name` bound to `metric`, whatever it was bound to.
    pub open spec fn bound(self, name: Seq<char>, metric: Metric) -> RegistryState {
        RegistryState { metrics: self.metrics.insert(name, metric), ..self }
    }

    /// Get-or-create: what asking for the instrument of kind `kind` under `name` may come
    /// to, and the state `next` that it leaves.
    ///
    /// A bound name gives the handle it is bound to and leaves the state alone. A free name
    /// is bound to the handle that is given. A name bound to another kind is an error, and
    /// nothing changes.
    pub open spec fn resolves(
        self,
        name: Seq<char>,
        kind: MetricKind,
        outcome: Result<Metric, RegistryError>,
        next: RegistryState,
    ) -> bool {
        match outcome {
            Ok(metric) => {
                &&& metric.kind() == kind
                &&& self.admits(name, kind)
                &&& self.metrics.contains_key(name) ==> self.metrics[name] == metric
                &&& next == self.bound(name, metric)
            },
            Err(e) => {
                &&& e == RegistryError::KindMismatch
                &&& !self.admits(name, kind)
                &&& next == self
            },
        }
    }

    /// This state with `set` registered as `name`. A name that is registered already keeps
    /// its place in the order and gets the new set.
    pub open spec fn registered(self, name: Seq<char>, set: SetHandle) -> RegistryState {
        RegistryState {
            set_names: if self.set_names.contains(name) {
                self.set_names
            } else {
                self.set_names.push(name)
            },
            sets: self.sets.insert(name, set),
            ..self
        }
    }

    /// This state without the set registered as `name`.
    pub open spec fn unregistered(self, name: Seq<char>) -> RegistryState {
        RegistryState {
            set_names: without(self.set_names, name),
            sets: self.sets.remove(name),
            ..self
        }
    }

    /// This state with `filter` in place of its filter.
    pub open spec fn filtered(self, filter: Option<Box<dyn MetricsFilter>>) -> RegistryState {
        RegistryState { filter, ..self }
    }

    /// Whether `shown` can be the snapshot of this state at a moment when its sets
    /// produce `produced`, one map for each set in the order of registration.
    ///
    /// A snapshot is a merge of layers, later layers winning. The bottom layer is what
    /// the filter lets through of the kept instruments; above it lies one layer for each
    /// map of `produced`, which is what the filter lets through of that map. Without a
    /// filter every layer is whole.
    pub open spec fn shows_from(
        self,
        produced: Seq<Map<Seq<char>, Metric>>,
        shown: Map<Seq<char>, Metric>,
    ) -> bool {
        exists|layers: Seq<Map<Seq<char>, Metric>>|
            {
                &&& #[trigger] merged(layers) == shown
                &&& layers.len() == produced.len() + 1
                &&& sifted(&self.filter, self.metrics, layers[0])
                &&& forall|i: int|
                    1 <= i < layers.len() ==> sifted(
                        &self.filter,
                        produced[i - 1],
                        #[trigger] layers[i],
                    )
                &&& self.filter is None ==> layers == seq![self.metrics] + produced
            }
    }

    /// Whether `shown` can be a snapshot of this state: whether it is one for maps that
    /// the registered sets may give, each set its own, when they are asked.
    pub open spec fn shows(self, shown: Map<Seq<char>, Metric>) -> bool {
        exists|produced: Seq<NameMap<Metric>>|
            {
                &&& produced.len() == self.set_names.len()
                &&& forall|i: int|
                    0 <= i < produced.len() ==> self.sets[self.set_names[i]].gives(
                        #[trigger] produced[i],
                    )
                &&& #[trigger] self.shows_from(views(produced), shown)
            }
    }
}

/// Keeps instruments by name and hands out handles to them.
///
/// A registry has one holder at a time: what changes it takes `&mut self`, so every call
/// does all of its work before another begins, and a request that finds its name free
/// binds it before anybody else can look. The handles that it gives out are shared with
/// it: an instrument is worked on through its handle, without the registry. To let many
/// threads ask one registry, put it into a `SharedRegistry`.
///
/// The view of a registry is a `RegistryState`; the contracts say how each call changes
/// it.
pub struct MetricsRegistry {
    metrics: NameMap<Metric>,
    sets: NameMap<SetHandle>,
    filter: Option<Box<dyn MetricsFilter>>,
}

impl View for MetricsRegistry {
    type V = RegistryState;

    closed spec fn view(&self) -> RegistryState {
        RegistryState {
            metrics: self.metrics@,
            set_names: self.sets.names(),
            sets: self.sets@,
            filter: self.filter,
        }
    }
}

impl Default for MetricsRegistry {
    fn default() -> (r: MetricsRegistry)
        ensures
            r@ == RegistryState::empty(),
            r@.valid(),
    {
        MetricsRegistry::new()
    }
}

impl MetricsRegistry {
    proof fn lemma_valid(&self)
        requires
            self.sets.wf(),
        ensures
            self@.valid(),
    {
        self.sets.lemma_view();
    }

    /// An empty registry.
    pub fn new() -> (r: MetricsRegistry)
        ensures
            r@ == RegistryState::empty(),
            r@.valid(),
    {
        let r = MetricsRegistry { metrics: NameMap::new(), sets: NameMap::new(), filter: None };
        proof {
            r.lemma_valid();
        }
        r
    }

    /// An empty registry behind an `Arc`, for those who share one.
    pub fn arc() -> (r: Arc<MetricsRegistry>)
        ensures
            r@ == RegistryState::empty(),
            r@.valid(),
    {
        Arc::new(MetricsRegistry::new())
    }

    /// The handle that `name` is bound to.
    pub fn get(&self, name: &str) -> (r: Option<Metric>)
        ensures
            self@.valid(),
            r == self@.binding(name@),
    {
        proof {
            use_type_invariant(&self.sets);
            self.lemma_valid();
        }
        match self.metrics.get(name) {
            Some(metric) => Some(metric.clone()),
            None => None,
        }
    }

    /// The meter called `name`, made and kept if there was none. One that is made starts
    /// at zero.
    pub fn meter(&mut self, name: &str) -> (r: Result<Arc<Meter>, RegistryError>)
        ensures
            old(self)@.resolves(
                name@,
                MetricKind::Meter,
                (match r {
                    Ok(m) => Ok(Metric::Meter(m)),
                    Err(e) => Err(e),
                }),
                final(self)@,
            ),
            !old(self)@.metrics.contains_key(name@) ==> (r matches Ok(m) && m.starts_at_zero()),
            final(self)@.valid(),
    {
        proof {
            use_type_invariant(&self.sets);
            self.lemma_valid();
        }
        match self.metrics.get(name) {
            Some(Metric::Meter(m)) => {
                proof {
                    assert(self@.bound(name@, Metric::Meter(*m)) =~= self@);
                }
                Ok(m.clone())
            },
            Some(_) => Err(RegistryError::KindMismatch),
            None => {
                let m = Arc::new(Meter::new());
                self.metrics.insert(name.to_owned(), Metric::Meter(m.clone()));
                Ok(m)
            },
        }
    }

    /// The histogram called `name`, made and kept if there was none. One that is made
    /// starts at zero.
    pub fn histogram(&mut self, name: &str) -> (r: Result<Arc<Histogram>, RegistryError>)
        ensures
            old(self)@.resolves(
                name@,
                MetricKind::Histogram,
                (match r {
                    Ok(h) => Ok(Metric::Histogram(h)),
                    Err(e) => Err(e),
                }),
                final(self)@,
            ),
            !old(self)@.metrics.contains_key(name@) ==> (r matches Ok(h) && h.starts_at_zero()),
            final(self)@.valid(),
    {
        proof {
            use_type_invariant(&self.sets);
            self.lemma_valid();
        }
        match self.metrics.get(name) {
            Some(Metric::Histogram(h)) => {
                proof {
                    assert(self@.bound(name@, Metric::Histogram(*h)) =~= self@);
                }
                Ok(h.clone())
            },
            Some(_) => Err(RegistryError::KindMismatch),
            None => {
                let h = Arc::new(Histogram::new());
                self.metrics.insert(name.to_owned(), Metric::Histogram(h.clone()));
                Ok(h)
            },
        }
    }

    /// The counter called `name`, made and kept if there was none. One that is made
    /// starts at zero.
    pub fn counter(&mut self, name: &str) -> (r: Result<Arc<Counter>, RegistryError>)
        ensures
            old(self)@.resolves(
                name@,
                MetricKind::Counter,
                (match r {
                    Ok(c) => Ok(Metric::Counter(c)),
                    Err(e) => Err(e),
                }),
                final(self)@,
            ),
            !old(self)@.metrics.contains_key(name@) ==> (r matches Ok(c) && c.starts_at_zero()),
            final(self)@.valid(),
    {
        proof {
            use_type_invariant(&self.sets);
            self.lemma_valid();
        }
        match self.metrics.get(name) {
            Some(Metric::Counter(c)) => {
                proof {
                    assert(self@.bound(name@, Metric::Counter(*c)) =~= self@);
                }
                Ok(c.clone())
            },
            Some(_) => Err(RegistryError::KindMismatch),
            None => {
                let c = Arc::new(Counter::new());
                self.metrics.insert(name.to_owned(), Metric::Counter(c.clone()));
                Ok(c)
            },
        }
    }

    /// The timer called `name`, made and kept if there was none. One that is made starts
    /// at zero.
    pub fn timer(&mut self, name: &str) -> (r: Result<Arc<Timer>, RegistryError>)
        ensures
            old(self)@.resolves(
                name@,
                MetricKind::Timer,
                (match r {
                    Ok(t) => Ok(Metric::Timer(t)),
                    Err(e) => Err(e),
                }),
                final(self)@,
            ),
            !old(self)@.metrics.contains_key(name@) ==> (r matches Ok(t) && (t.meter().starts_at_zero() && t.histogram().starts_at_zero())),
            final(self)@.valid(),
    {
        proof {
            use_type_invariant(&self.sets);
            self.lemma_valid();
        }
        match self.metrics.get(name) {
            Some(Metric::Timer(t)) => {
                proof {
                    assert(self@.bound(name@, Metric::Timer(*t)) =~= self@);
                }
                Ok(t.clone())
            },
            Some(_) => Err(RegistryError::KindMismatch),
            None => {
                let t = Arc::new(Timer::new());
                self.metrics.insert(name.to_owned(), Metric::Timer(t.clone()));
                Ok(t)
            },
        }
    }

    /// Binds `name` to `gauge`, whatever `name` was bound to.
    pub fn gauge(&mut self, name: &str, gauge: Gauge)
        ensures
            final(self)@ == old(self)@.bound(name@, Metric::Gauge(Arc::new(gauge))),
            final(self)@.valid(),
    {
        proof {
            use_type_invariant(&self.sets);
            self.lemma_valid();
        }
        self.metrics.insert(name.to_owned(), Metric::Gauge(Arc::new(gauge)));
    }

    /// Asks every registered set for its metrics of this moment, in the order of
    /// registration: the map at a place is what the set registered at that place gives.
    pub fn produce(&self) -> (produced: Vec<NameMap<Metric>>)
        ensures
            self@.valid(),
            produced.len() == self@.set_names.len(),
            forall|i: int|
                0 <= i < produced.len() ==> self@.sets[self@.set_names[i]].gives(
                    #[trigger] produced[i],
                ),
    {
        proof {
            use_type_invariant(&self.sets);
            self.lemma_valid();
            self.sets.lemma_view();
        }
        let n = self.sets.len();
        let mut produced: Vec<NameMap<Metric>> = Vec::new();
        let mut i: usize = 0;
        while i < n
            invariant
                i <= n,
                n == self.sets.names().len(),
                produced.len() == i,
                forall|j: int|
                    0 <= j < i ==> self.sets@[self.sets.names()[j]].gives(#[trigger] produced[j]),
            decreases n - i,
        {
            produced.push(self.sets.value_at(i).get_all());
            i += 1;
        }
        produced
    }

    /// The snapshot that the registry shows where its sets have produced `produced`: the
    /// instruments it keeps and, over them, the maps of `produced` one after the other,
    /// a later entry taking the place of an earlier one of the same name. Where there is
    /// a filter, only what it accepts gets in.
    pub fn snapshot_of(&self, produced: &Vec<NameMap<Metric>>) -> (r: NameMap<Metric>)
        ensures
            r.wf(),
            self@.shows_from(views(produced@), r@),
            self@.filter is None ==> r@ == merged(seq![self@.metrics] + views(produced@)),
    {
        let mut shown: NameMap<Metric> = NameMap::new();
        let keep = verdicts(&self.metrics, &self.filter);
        absorb(&mut shown, &self.metrics, &keep);
        let ghost bottom = shown@;
        let ghost mut layers: Seq<Map<Seq<char>, Metric>> = seq![bottom];
        proof {
            assert(bottom =~= self.metrics@.restrict(chosen(self.metrics.names(), keep@)));
            lemma_chosen_is_sifted(&self.filter, &self.metrics, keep@);
            if self.filter is None {
                self.metrics.lemma_view();
                lemma_keep_all(self.metrics@, self.metrics.names(), keep@);
            }
            assert(layers.drop_last() =~= Seq::empty());
            assert(merged(layers.drop_last()) =~= Map::empty());
            assert(merged(layers) =~= bottom);
        }
        let n = produced.len();
        let mut i: usize = 0;
        while i < n
            invariant
                i <= n,
                n == produced.len(),
                shown.wf(),
                layers.len() == i + 1,
                layers[0] == bottom,
                merged(layers) == shown@,
                sifted(&self.filter, self.metrics@, bottom),
                forall|j: int|
                    1 <= j < layers.len() ==> sifted(
                        &self.filter,
                        views(produced@)[j - 1],
                        #[trigger] layers[j],
                    ),
                self.filter is None ==> forall|j: int|
                    1 <= j < layers.len() ==> #[trigger] layers[j] == views(produced@)[j - 1],
            decreases n - i,
        {
            let keep = verdicts(&produced[i], &self.filter);
            let ghost before = shown@;
            absorb(&mut shown, &produced[i], &keep);
            proof {
                let whole = produced[i as int]@;
                let top = whole.restrict(chosen(produced[i as int].names(), keep@));
                lemma_chosen_is_sifted(&self.filter, &produced[i as int], keep@);
                if self.filter is None {
                    produced[i as int].lemma_view();
                    lemma_keep_all(whole, produced[i as int].names(), keep@);
                }
                let longer = layers.push(top);
                assert(longer.drop_last() =~= layers);
                assert(merged(longer) == before.union_prefer_right(top));
                assert(views(produced@)[i as int] == whole);
                assert forall|j: int| 1 <= j < longer.len() implies sifted(
                    &self.filter,
                    views(produced@)[j - 1],
                    #[trigger] longer[j],
                ) by {
                    if j < layers.len() {
                        assert(longer[j] == layers[j]);
                    }
                }
                if self.filter is None {
                    assert forall|j: int| 1 <= j < longer.len() implies #[trigger] longer[j]
                        == views(produced@)[j - 1] by {
                        if j < layers.len() {
                            assert(longer[j] == layers[j]);
                        }
                    }
                }
                layers = longer;
            }
            i += 1;
        }
        proof {
            if self.filter is None {
                assert(layers =~= seq![self@.metrics] + views(produced@));
            }
        }
        shown
    }

    /// All that the registry shows at this moment: the instruments it keeps and, over
    /// them, what each registered set produces now, set by set in the order of
    /// registration. Where there is a filter, only what it accepts is shown.
    ///
    /// The map that comes back is the caller's own: what happens to the registry later
    /// does not change it.
    pub fn snapshots(&self) -> (r: NameMap<Metric>)
        ensures
            r.wf(),
            self@.valid(),
            self@.shows(r@),
            self@.filter is None ==> forall|name: Seq<char>| #[trigger]
                self@.metrics.contains_key(name) ==> r@.contains_key(name),
            self@.set_names.len() == 0 ==> r@.submap_of(self@.metrics),
            self@.set_names.len() == 0 && self@.filter is None ==> r@ == self@.metrics,
    {
        let produced = self.produce();
        let r = self.snapshot_of(&produced);
        proof {
            assert(self@.shows_from(views(produced@), r@));
            assert(self@.shows(r@));
            if self@.filter is None {
                assert forall|name: Seq<char>| #[trigger]
                    self@.metrics.contains_key(name) implies r@.contains_key(name) by {
                    lemma_unfiltered_snapshot_holds_all_kept(self@, r@, name);
                }
            }
            if self@.set_names.len() == 0 {
                lemma_snapshot_without_sets(self@, r@);
            }
        }
        r
    }

    /// Puts `filter` in place of the registry's filter; `None` takes the filter away.
    pub fn set_filter(&mut self, filter: Option<Box<dyn MetricsFilter>>)
        ensures
            final(self)@ == old(self)@.filtered(filter),
            final(self)@.valid(),
    {
        proof {
            use_type_invariant(&self.sets);
            self.lemma_valid();
        }
        self.filter = filter;
    }

    /// Registers `mset` as `name`, in place of a set registered as `name` before.
    pub fn register_metrics_set(&mut self, name: &str, mset: SetHandle)
        ensures
            final(self)@ == old(self)@.registered(name@, mset),
            final(self)@.valid(),
    {
        self.sets.insert(name.to_owned(), mset);
        proof {
            self.lemma_valid();
        }
    }

    /// Takes out the set registered as `name`, if there is one.
    pub fn unregister_metrics_set(&mut self, name: &str)
        ensures
            final(self)@ == old(self)@.unregistered(name@),
            final(self)@.valid(),
    {
        let _ = self.sets.remove(name);
        proof {
            self.lemma_valid();
        }
    }
}

} // verus!
