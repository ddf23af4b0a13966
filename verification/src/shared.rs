use crate::filter::MetricsFilter;
use crate::metrics::Counter;
use crate::metrics::Gauge;
use crate::metrics::Histogram;
use crate::metrics::Meter;
use crate::metrics::Metric;
use crate::metrics::MetricKind;
use crate::metrics::Timer;
use crate::mset::SetHandle;
use crate::names::NameMap;
use crate::registry::MetricsRegistry;
use crate::registry::RegistryError;
use crate::registry::RegistryState;
use std::sync::Arc;
use std::sync::RwLock;
use std::sync::RwLockReadGuard;
use std::sync::RwLockWriteGuard;
use vstd::prelude::*;

verus! {

/// `std::sync::RwLock`, a lock for many readers or one writer. Nothing is said of what
/// it guards.
#[verifier::external_type_specification]
#[verifier::external_body]
#[verifier::reject_recursive_types(T)]
pub struct ExRwLock<T: ?Sized>(RwLock<T>);

/// `std::sync::RwLockReadGuard`, which stands for shared access until it is dropped.
#[verifier::external_type_specification]
#[verifier::external_body]
#[verifier::reject_recursive_types(T)]
pub struct ExRwLockReadGuard<'a, T: ?Sized>(RwLockReadGuard<'a, T>);

/// `std::sync::RwLockWriteGuard`, which stands for exclusive access until it is dropped.
#[verifier::external_type_specification]
#[verifier::external_body]
#[verifier::reject_recursive_types(T)]
pub struct ExRwLockWriteGuard<'a, T: ?Sized + 'a>(RwLockWriteGuard<'a, T>);

/// `RwLock::new`: a lock around `registry`. Nothing is claimed of it.
#[verifier::external_body]
fn guarded(registry: MetricsRegistry) -> RwLock<MetricsRegistry> {
    RwLock::new(registry)
}

/// `RwLock::read`: waits for shared access. `None` stands for a poisoned lock. Nothing is
/// claimed of when which comes back. A thread that asks while it holds the lock itself
/// may wait for ever or panic: no function of this file asks twice.
#[verifier::external_body]
fn shared_access(lock: &RwLock<MetricsRegistry>) -> Option<RwLockReadGuard<'_, MetricsRegistry>> {
    match lock.read() {
        Ok(guard) => Some(guard),
        Err(_) => None,
    }
}

/// `RwLock::write`: waits for exclusive access. `None` stands for a poisoned lock.
/// Nothing is claimed of when which comes back. A thread that asks while it holds the
/// lock itself may wait for ever or panic: no function of this file asks twice.
#[verifier::external_body]
fn exclusive_access(lock: &RwLock<MetricsRegistry>) -> Option<
    RwLockWriteGuard<'_, MetricsRegistry>,
> {
    match lock.write() {
        Ok(guard) => Some(guard),
        Err(_) => None,
    }
}

/// `Deref::deref` of a read guard: the registry behind the lock. Nothing is claimed of
/// what it holds: other threads have had their turn.
#[verifier::external_body]
fn seen<'a, 'b>(guard: &'a RwLockReadGuard<'b, MetricsRegistry>) -> &'a MetricsRegistry {
    &**guard
}

/// `DerefMut::deref_mut` of a write guard: the registry behind the lock, to work on.
/// Nothing is claimed of what it holds.
#[verifier::external_body]
fn held<'a, 'b>(guard: &'a mut RwLockWriteGuard<'b, MetricsRegistry>) -> &'a mut MetricsRegistry {
    &mut **guard
}

/// A registry that many threads use at once.
///
/// One lock guards all of it, the filter too, so that a snapshot never sees half of a
/// change. Looking up and taking a snapshot ask for shared access; whatever changes the
/// registry asks for exclusive access, and does all of its work in one turn. A request
/// that finds its name unbound lets go of shared access and starts again under exclusive
/// access, where it looks once more before it makes an instrument: of all the callers
/// that miss a name at once, the first to get its turn makes the instrument, and the
/// others get a handle to that one.
///
/// Between two calls other threads have their turns, so no contract here says what the
/// registry holds before a call. Each says what the call makes of what the lock gives
/// it: of the registry that shared access finds (`finds`), or of the registry that
/// exclusive access opens (`opens`), as it is found and as it is left.
///
/// A lock whose holder panicked is poisoned, and every call on it from then on comes
/// back with `RegistryError::LockPoisoned`.
pub struct SharedRegistry {
    inner: RwLock<MetricsRegistry>,
}

impl SharedRegistry {
    /// Whether the lock of this registry is what `RwLock::new` makes of `first`.
    pub closed spec fn guards(&self, first: MetricsRegistry) -> bool {
        call_ensures(guarded, (first,), self.inner)
    }

    /// Whether shared access to this registry may find it as `found`.
    pub closed spec fn finds(&self, found: MetricsRegistry) -> bool {
        exists|guard: RwLockReadGuard<MetricsRegistry>|
            call_ensures(shared_access, (&self.inner,), Some(guard)) && call_ensures(
                seen,
                (&guard,),
                &found,
            )
    }

    /// Whether exclusive access to this registry may open it as `slot`: what `slot` holds
    /// at first is the registry as it is found, and what it holds at last is the
    /// registry as it is left.
    pub closed spec fn opens(&self, slot: &mut MetricsRegistry) -> bool {
        exists|guard: RwLockWriteGuard<MetricsRegistry>, place: &mut RwLockWriteGuard<MetricsRegistry>|
            call_ensures(exclusive_access, (&self.inner,), Some(guard)) && *place == guard
                && call_ensures(held, (place,), slot)
    }

    /// Whether the lock may turn a reader away as poisoned.
    pub closed spec fn refuses_readers(&self) -> bool {
        call_ensures(shared_access, (&self.inner,), None::<RwLockReadGuard<MetricsRegistry>>)
    }

    /// Whether the lock may turn a writer away as poisoned.
    pub closed spec fn refuses_writers(&self) -> bool {
        call_ensures(exclusive_access, (&self.inner,), None::<RwLockWriteGuard<MetricsRegistry>>)
    }

    /// An empty registry, ready to be shared.
    pub fn new() -> (r: SharedRegistry)
        ensures
            exists|first: MetricsRegistry| #[trigger]
                r.guards(first) && first@ == RegistryState::empty(),
    {
        let first = MetricsRegistry::new();
        let ghost start = first;
        let r = SharedRegistry { inner: guarded(first) };
        proof {
            assert(r.guards(start));
        }
        r
    }

    /// `registry` with all it holds, ready to be shared.
    pub fn sharing(registry: MetricsRegistry) -> (r: SharedRegistry)
        ensures
            r.guards(registry),
    {
        SharedRegistry { inner: guarded(registry) }
    }

    /// Looks `name` up under shared access, and says what registry was found.
    fn peek(&self, name: &str) -> (r: Option<(Option<Metric>, Ghost<MetricsRegistry>)>)
        ensures
            match r {
                Some((answer, found)) => self.finds(found@) && answer == found@@.binding(name@),
                None => self.refuses_readers(),
            },
    {
        match shared_access(&self.inner) {
            Some(guard) => {
                let found = seen(&guard);
                proof {
                    assert(self.finds(*found));
                }
                Some((found.get(name), Ghost(*found)))
            },
            None => None,
        }
    }

    /// The handle that `name` is bound to at the moment, if any.
    pub fn get(&self, name: &str) -> (r: Result<Option<Metric>, RegistryError>)
        ensures
            match r {
                Ok(answer) => exists|found: MetricsRegistry| #[trigger]
                    self.finds(found) && answer == found@.binding(name@),
                Err(e) => e == RegistryError::LockPoisoned && self.refuses_readers(),
            },
    {
        match self.peek(name) {
            Some((answer, _)) => Ok(answer),
            None => Err(RegistryError::LockPoisoned),
        }
    }

    /// The meter called `name`, made and kept if there was none.
    ///
    /// A name that shared access finds bound is answered from what is found. A name that
    /// it finds free is asked for again under exclusive access, and bound there if it is
    /// still free, to an instrument that starts at zero.
    pub fn meter(&self, name: &str) -> (r: Result<Arc<Meter>, RegistryError>)
        ensures
            match r {
                Err(RegistryError::LockPoisoned) => self.refuses_readers() || self.refuses_writers(),
                _ => {
                    let outcome = match r {
                        Ok(m) => Ok(Metric::Meter(m)),
                        Err(e) => Err(e),
                    };
                    ||| exists|found: MetricsRegistry| #[trigger]
                        self.finds(found) && found@.resolves(
                            name@,
                            MetricKind::Meter,
                            outcome,
                            found@,
                        )
                    ||| exists|slot: &mut MetricsRegistry| #[trigger]
                        self.opens(slot) && (*slot)@.resolves(
                            name@,
                            MetricKind::Meter,
                            outcome,
                            (*final(slot))@,
                        ) && (!(*slot)@.metrics.contains_key(name@) ==> (r matches Ok(m)
                            && m.starts_at_zero()))
                },
            },
    {
        match self.peek(name) {
            Some((Some(Metric::Meter(m)), found)) => {
                proof {
                    assert(found@@.bound(name@, Metric::Meter(m)) =~= found@@);
                }
                Ok(m)
            },
            Some((Some(_), _)) => Err(RegistryError::KindMismatch),
            Some((None, _)) => match exclusive_access(&self.inner) {
                Some(mut guard) => {
                    let registry = held(&mut guard);
                    let ghost slot = registry;
                    proof {
                        assert(self.opens(slot));
                    }
                    let r = registry.meter(name);
                    proof {
                        assert(*final(slot) == *registry);
                    }
                    r
                },
                None => Err(RegistryError::LockPoisoned),
            },
            None => Err(RegistryError::LockPoisoned),
        }
    }

    /// The histogram called `name`, made and kept if there was none.
    ///
    /// A name that shared access finds bound is answered from what is found. A name that
    /// it finds free is asked for again under exclusive access, and bound there if it is
    /// still free, to an instrument that starts at zero.
    pub fn histogram(&self, name: &str) -> (r: Result<Arc<Histogram>, RegistryError>)
        ensures
            match r {
                Err(RegistryError::LockPoisoned) => self.refuses_readers() || self.refuses_writers(),
                _ => {
                    let outcome = match r {
                        Ok(h) => Ok(Metric::Histogram(h)),
                        Err(e) => Err(e),
                    };
                    ||| exists|found: MetricsRegistry| #[trigger]
                        self.finds(found) && found@.resolves(
                            name@,
                            MetricKind::Histogram,
                            outcome,
                            found@,
                        )
                    ||| exists|slot: &mut MetricsRegistry| #[trigger]
                        self.opens(slot) && (*slot)@.resolves(
                            name@,
                            MetricKind::Histogram,
                            outcome,
                            (*final(slot))@,
                        ) && (!(*slot)@.metrics.contains_key(name@) ==> (r matches Ok(h)
                            && h.starts_at_zero()))
                },
            },
    {
        match self.peek(name) {
            Some((Some(Metric::Histogram(h)), found)) => {
                proof {
                    assert(found@@.bound(name@, Metric::Histogram(h)) =~= found@@);
                }
                Ok(h)
            },
            Some((Some(_), _)) => Err(RegistryError::KindMismatch),
            Some((None, _)) => match exclusive_access(&self.inner) {
                Some(mut guard) => {
                    let registry = held(&mut guard);
                    let ghost slot = registry;
                    proof {
                        assert(self.opens(slot));
                    }
                    let r = registry.histogram(name);
                    proof {
                        assert(*final(slot) == *registry);
                    }
                    r
                },
                None => Err(RegistryError::LockPoisoned),
            },
            None => Err(RegistryError::LockPoisoned),
        }
    }

    /// The counter called `name`, made and kept if there was none.
    ///
    /// A name that shared access finds bound is answered from what is found. A name that
    /// it finds free is asked for again under exclusive access, and bound there if it is
    /// still free, to an instrument that starts at zero.
    pub fn counter(&self, name: &str) -> (r: Result<Arc<Counter>, RegistryError>)
        ensures
            match r {
                Err(RegistryError::LockPoisoned) => self.refuses_readers() || self.refuses_writers(),
                _ => {
                    let outcome = match r {
                        Ok(c) => Ok(Metric::Counter(c)),
                        Err(e) => Err(e),
                    };
                    ||| exists|found: MetricsRegistry| #[trigger]
                        self.finds(found) && found@.resolves(
                            name@,
                            MetricKind::Counter,
                            outcome,
                            found@,
                        )
                    ||| exists|slot: &mut MetricsRegistry| #[trigger]
                        self.opens(slot) && (*slot)@.resolves(
                            name@,
                            MetricKind::Counter,
                            outcome,
                            (*final(slot))@,
                        ) && (!(*slot)@.metrics.contains_key(name@) ==> (r matches Ok(c)
                            && c.starts_at_zero()))
                },
            },
    {
        match self.peek(name) {
            Some((Some(Metric::Counter(c)), found)) => {
                proof {
                    assert(found@@.bound(name@, Metric::Counter(c)) =~= found@@);
                }
                Ok(c)
            },
            Some((Some(_), _)) => Err(RegistryError::KindMismatch),
            Some((None, _)) => match exclusive_access(&self.inner) {
                Some(mut guard) => {
                    let registry = held(&mut guard);
                    let ghost slot = registry;
                    proof {
                        assert(self.opens(slot));
                    }
                    let r = registry.counter(name);
                    proof {
                        assert(*final(slot) == *registry);
                    }
                    r
                },
                None => Err(RegistryError::LockPoisoned),
            },
            None => Err(RegistryError::LockPoisoned),
        }
    }

    /// The timer called `name`, made and kept if there was none.
    ///
    /// A name that shared access finds bound is answered from what is found. A name that
    /// it finds free is asked for again under exclusive access, and bound there if it is
    /// still free, to an instrument that starts at zero.
    pub fn timer(&self, name: &str) -> (r: Result<Arc<Timer>, RegistryError>)
        ensures
            match r {
                Err(RegistryError::LockPoisoned) => self.refuses_readers() || self.refuses_writers(),
                _ => {
                    let outcome = match r {
                        Ok(t) => Ok(Metric::Timer(t)),
                        Err(e) => Err(e),
                    };
                    ||| exists|found: MetricsRegistry| #[trigger]
                        self.finds(found) && found@.resolves(
                            name@,
                            MetricKind::Timer,
                            outcome,
                            found@,
                        )
                    ||| exists|slot: &mut MetricsRegistry| #[trigger]
                        self.opens(slot) && (*slot)@.resolves(
                            name@,
                            MetricKind::Timer,
                            outcome,
                            (*final(slot))@,
                        ) && (!(*slot)@.metrics.contains_key(name@) ==> (r matches Ok(t)
                            && (t.meter().starts_at_zero() && t.histogram().starts_at_zero())))
                },
            },
    {
        match self.peek(name) {
            Some((Some(Metric::Timer(t)), found)) => {
                proof {
                    assert(found@@.bound(name@, Metric::Timer(t)) =~= found@@);
                }
                Ok(t)
            },
            Some((Some(_), _)) => Err(RegistryError::KindMismatch),
            Some((None, _)) => match exclusive_access(&self.inner) {
                Some(mut guard) => {
                    let registry = held(&mut guard);
                    let ghost slot = registry;
                    proof {
                        assert(self.opens(slot));
                    }
                    let r = registry.timer(name);
                    proof {
                        assert(*final(slot) == *registry);
                    }
                    r
                },
                None => Err(RegistryError::LockPoisoned),
            },
            None => Err(RegistryError::LockPoisoned),
        }
    }

    /// Binds `name` to `gauge`, whatever `name` was bound to.
    pub fn gauge(&self, name: &str, gauge: Gauge) -> (r: Result<(), RegistryError>)
        ensures
            match r {
                Ok(_) => exists|slot: &mut MetricsRegistry| #[trigger]
                    self.opens(slot) && (*final(slot))@ == (*slot)@.bound(name@, Metric::Gauge(Arc::new(gauge))),
                Err(e) => e == RegistryError::LockPoisoned && self.refuses_writers(),
            },
    {
        match exclusive_access(&self.inner) {
            Some(mut guard) => {
                let registry = held(&mut guard);
                let ghost slot = registry;
                proof {
                    assert(self.opens(slot));
                }
                registry.gauge(name, gauge);
                proof {
                    assert(*final(slot) == *registry);
                }
                Ok(())
            },
            None => Err(RegistryError::LockPoisoned),
        }
    }

    /// All that the registry shows at this moment.
    ///
    /// The sets and the filter are asked under shared access: one that calls back into
    /// this registry may wait for ever.
    pub fn snapshots(&self) -> (r: Result<NameMap<Metric>, RegistryError>)
        ensures
            match r {
                Ok(shown) => shown.wf() && exists|found: MetricsRegistry| #[trigger]
                    self.finds(found) && found@.shows(shown@),
                Err(e) => e == RegistryError::LockPoisoned && self.refuses_readers(),
            },
    {
        match shared_access(&self.inner) {
            Some(guard) => {
                let found = seen(&guard);
                proof {
                    assert(self.finds(*found));
                }
                Ok(found.snapshots())
            },
            None => Err(RegistryError::LockPoisoned),
        }
    }

    /// Puts `filter` in place of the registry's filter; `None` takes the filter away.
    pub fn set_filter(&self, filter: Option<Box<dyn MetricsFilter>>) -> (r: Result<(), RegistryError>)
        ensures
            match r {
                Ok(_) => exists|slot: &mut MetricsRegistry| #[trigger]
                    self.opens(slot) && (*final(slot))@ == (*slot)@.filtered(filter),
                Err(e) => e == RegistryError::LockPoisoned && self.refuses_writers(),
            },
    {
        match exclusive_access(&self.inner) {
            Some(mut guard) => {
                let registry = held(&mut guard);
                let ghost slot = registry;
                proof {
                    assert(self.opens(slot));
                }
                registry.set_filter(filter);
                proof {
                    assert(*final(slot) == *registry);
                }
                Ok(())
            },
            None => Err(RegistryError::LockPoisoned),
        }
    }

    /// Registers `mset` as `name`, in place of a set registered as `name` before.
    pub fn register_metrics_set(&self, name: &str, mset: SetHandle) -> (r: Result<(), RegistryError>)
        ensures
            match r {
                Ok(_) => exists|slot: &mut MetricsRegistry| #[trigger]
                    self.opens(slot) && (*final(slot))@ == (*slot)@.registered(name@, mset),
                Err(e) => e == RegistryError::LockPoisoned && self.refuses_writers(),
            },
    {
        match exclusive_access(&self.inner) {
            Some(mut guard) => {
                let registry = held(&mut guard);
                let ghost slot = registry;
                proof {
                    assert(self.opens(slot));
                }
                registry.register_metrics_set(name, mset);
                proof {
                    assert(*final(slot) == *registry);
                }
                Ok(())
            },
            None => Err(RegistryError::LockPoisoned),
        }
    }

    /// Takes out the set registered as `name`, if there is one.
    pub fn unregister_metrics_set(&self, name: &str) -> (r: Result<(), RegistryError>)
        ensures
            match r {
                Ok(_) => exists|slot: &mut MetricsRegistry| #[trigger]
                    self.opens(slot) && (*final(slot))@ == (*slot)@.unregistered(name@),
                Err(e) => e == RegistryError::LockPoisoned && self.refuses_writers(),
            },
    {
        match exclusive_access(&self.inner) {
            Some(mut guard) => {
                let registry = held(&mut guard);
                let ghost slot = registry;
                proof {
                    assert(self.opens(slot));
                }
                registry.unregister_metrics_set(name);
                proof {
                    assert(*final(slot) == *registry);
                }
                Ok(())
            },
            None => Err(RegistryError::LockPoisoned),
        }
    }
}

} // verus!
