use crate::metrics::Metric;
use crate::metrics::MetricKind;
use crate::mset::SetHandle;
use crate::names::NameMap;
use crate::registry::RegistryError;
use crate::registry::RegistryState;
use crate::snapshot::lemma_merged_contains;
use crate::snapshot::lemma_merged_last_wins;
use crate::snapshot::lemma_merged_origin;
use crate::snapshot::merged;
use crate::snapshot::sifted;
use crate::snapshot::views;
use vstd::prelude::*;

verus! {

/// A name stands for one instrument: whoever asks again for the same name and kind gets
/// what the first request got, and the second request changes nothing.
pub proof fn lemma_same_name_same_instrument(
    before: RegistryState,
    name: Seq<char>,
    kind: MetricKind,
    first: Result<Metric, RegistryError>,
    between: RegistryState,
    second: Result<Metric, RegistryError>,
    after: RegistryState,
)
    requires
        before.resolves(name, kind, first, between),
        between.resolves(name, kind, second, after),
    ensures
        second == first,
        after == between,
{
    match first {
        Ok(metric) => {
            assert(between.metrics.contains_key(name));
            assert(between.metrics[name] == metric);
            assert(between.bound(name, metric) =~= between);
        },
        Err(_) => {},
    }
}

/// A name keeps its kind: once it is bound to an instrument of one kind, a request for
/// another kind under that name is turned down as a kind mismatch, and changes nothing.
pub proof fn lemma_other_kind_is_refused(
    before: RegistryState,
    name: Seq<char>,
    kind: MetricKind,
    metric: Metric,
    between: RegistryState,
    other: MetricKind,
    second: Result<Metric, RegistryError>,
    after: RegistryState,
)
    requires
        before.resolves(name, kind, Ok(metric), between),
        other != kind,
        between.resolves(name, other, second, after),
    ensures
        second == Err::<Metric, RegistryError>(RegistryError::KindMismatch),
        after == between,
{
    assert(between.metrics.contains_key(name));
    assert(between.metrics[name] == metric);
}

/// No request ever unbinds a name or changes what another name is bound to.
pub proof fn lemma_request_keeps_bindings(
    before: RegistryState,
    name: Seq<char>,
    kind: MetricKind,
    outcome: Result<Metric, RegistryError>,
    after: RegistryState,
    other: Seq<char>,
)
    requires
        before.resolves(name, kind, outcome, after),
        before.metrics.contains_key(other),
    ensures
        after.metrics.contains_key(other),
        after.metrics[other] == before.metrics[other],
{
}

/// However many requests for one name and kind follow one another, with nothing else
/// in between, all of them get the same answer.
pub proof fn lemma_all_requests_agree(
    states: Seq<RegistryState>,
    outcomes: Seq<Result<Metric, RegistryError>>,
    name: Seq<char>,
    kind: MetricKind,
    i: int,
    j: int,
)
    requires
        states.len() == outcomes.len() + 1,
        forall|k: int|
            0 <= k < outcomes.len() ==> (#[trigger] states[k]).resolves(
                name,
                kind,
                outcomes[k],
                states[k + 1],
            ),
        0 <= i <= j < outcomes.len(),
    ensures
        outcomes[i] == outcomes[j],
    decreases j - i,
{
    if i < j {
        lemma_all_requests_agree(states, outcomes, name, kind, i + 1, j);
        assert(states[i].resolves(name, kind, outcomes[i], states[i + 1]));
        assert(states[i + 1].resolves(name, kind, outcomes[i + 1], states[i + 2]));
        lemma_same_name_same_instrument(
            states[i],
            name,
            kind,
            outcomes[i],
            states[i + 1],
            outcomes[i + 1],
            states[i + 2],
        );
    }
}

/// One instrument serves every caller: where a name is free and any number of requests
/// for it, all of one kind, follow one another, the first makes the instrument and every
/// request gets a handle to that one.
pub proof fn lemma_one_instrument_for_all_callers(
    states: Seq<RegistryState>,
    outcomes: Seq<Result<Metric, RegistryError>>,
    name: Seq<char>,
    kind: MetricKind,
    j: int,
)
    requires
        states.len() == outcomes.len() + 1,
        forall|k: int|
            0 <= k < outcomes.len() ==> (#[trigger] states[k]).resolves(
                name,
                kind,
                outcomes[k],
                states[k + 1],
            ),
        !states[0].metrics.contains_key(name),
        0 <= j < outcomes.len(),
    ensures
        outcomes[j] is Ok,
        outcomes[j] == outcomes[0],
        states[j + 1].metrics.contains_key(name),
        Ok::<Metric, RegistryError>(states[j + 1].metrics[name]) == outcomes[0],
    decreases j,
{
    assert(states[0].resolves(name, kind, outcomes[0], states[1]));
    lemma_all_requests_agree(states, outcomes, name, kind, 0, j);
    assert(states[j].resolves(name, kind, outcomes[j], states[j + 1]));
}

/// A gauge takes the place of what was bound to its name: of two gauges registered under
/// one name, one after the other, only the second is left.
pub proof fn lemma_later_gauge_replaces(
    state: RegistryState,
    name: Seq<char>,
    first: Metric,
    second: Metric,
)
    ensures
        state.bound(name, first).bound(name, second) == state.bound(name, second),
        state.bound(name, first).bound(name, second).metrics[name] == second,
{
    assert(state.bound(name, first).bound(name, second) =~= state.bound(name, second));
}

/// The layers behind a snapshot.
proof fn layers_of(
    state: RegistryState,
    produced: Seq<Map<Seq<char>, Metric>>,
    shown: Map<Seq<char>, Metric>,
) -> (layers: Seq<Map<Seq<char>, Metric>>)
    requires
        state.shows_from(produced, shown),
    ensures
        merged(layers) == shown,
        layers.len() == produced.len() + 1,
        layers[0].submap_of(state.metrics),
        forall|i: int| 1 <= i < layers.len() ==> (#[trigger] layers[i]).submap_of(produced[i - 1]),
        sifted(&state.filter, state.metrics, layers[0]),
        forall|i: int|
            1 <= i < layers.len() ==> sifted(&state.filter, produced[i - 1], #[trigger] layers[i]),
        state.filter is None ==> layers == seq![state.metrics] + produced,
{
    choose|layers: Seq<Map<Seq<char>, Metric>>|
        {
            &&& #[trigger] merged(layers) == shown
            &&& layers.len() == produced.len() + 1
            &&& sifted(&state.filter, state.metrics, layers[0])
            &&& forall|i: int|
                1 <= i < layers.len() ==> sifted(
                    &state.filter,
                    produced[i - 1],
                    #[trigger] layers[i],
                )
            &&& state.filter is None ==> layers == seq![state.metrics] + produced
        }
}

/// The maps behind a snapshot: what the sets gave when they were asked.
proof fn produced_of(state: RegistryState, shown: Map<Seq<char>, Metric>) -> (produced: Seq<
    Map<Seq<char>, Metric>,
>)
    requires
        state.shows(shown),
    ensures
        produced.len() == state.set_names.len(),
        state.shows_from(produced, shown),
{
    let maps = choose|produced: Seq<NameMap<Metric>>|
        {
            &&& produced.len() == state.set_names.len()
            &&& forall|i: int|
                0 <= i < produced.len() ==> state.sets[state.set_names[i]].gives(
                    #[trigger] produced[i],
                )
            &&& #[trigger] state.shows_from(views(produced), shown)
        };
    views(maps)
}

/// Without a filter a snapshot leaves out nothing that the registry keeps.
pub proof fn lemma_unfiltered_snapshot_holds_all_kept(
    state: RegistryState,
    shown: Map<Seq<char>, Metric>,
    name: Seq<char>,
)
    requires
        state.filter is None,
        state.shows(shown),
        state.metrics.contains_key(name),
    ensures
        shown.contains_key(name),
{
    let produced = produced_of(state, shown);
    let layers = layers_of(state, produced, shown);
    assert(layers[0] == state.metrics);
    lemma_merged_contains(layers, 0, name);
}

/// Without a filter a snapshot leaves out nothing that a set has produced.
pub proof fn lemma_unfiltered_snapshot_holds_all_produced(
    state: RegistryState,
    produced: Seq<Map<Seq<char>, Metric>>,
    shown: Map<Seq<char>, Metric>,
    i: int,
    name: Seq<char>,
)
    requires
        state.filter is None,
        state.shows_from(produced, shown),
        0 <= i < produced.len(),
        produced[i].contains_key(name),
    ensures
        shown.contains_key(name),
{
    let layers = layers_of(state, produced, shown);
    assert(layers[i + 1] == produced[i]);
    lemma_merged_contains(layers, i + 1, name);
}

/// Last write wins: without a filter, what a snapshot shows under a name is what the
/// last set to produce that name has produced.
pub proof fn lemma_unfiltered_snapshot_last_wins(
    state: RegistryState,
    produced: Seq<Map<Seq<char>, Metric>>,
    shown: Map<Seq<char>, Metric>,
    i: int,
    name: Seq<char>,
)
    requires
        state.filter is None,
        state.shows_from(produced, shown),
        0 <= i < produced.len(),
        produced[i].contains_key(name),
        forall|j: int| i < j < produced.len() ==> !produced[j].contains_key(name),
    ensures
        shown.contains_key(name),
        shown[name] == produced[i][name],
{
    let layers = layers_of(state, produced, shown);
    assert(layers[i + 1] == produced[i]);
    assert forall|j: int| i + 1 < j < layers.len() implies !layers[j].contains_key(name) by {
        assert(layers[j] == produced[j - 1]);
    }
    lemma_merged_last_wins(layers, i + 1, name);
}

/// A snapshot makes nothing up: whatever it shows, the registry keeps under that name or
/// a set has produced under that name.
pub proof fn lemma_snapshot_makes_nothing_up(
    state: RegistryState,
    produced: Seq<Map<Seq<char>, Metric>>,
    shown: Map<Seq<char>, Metric>,
    name: Seq<char>,
)
    requires
        state.shows_from(produced, shown),
        shown.contains_key(name),
    ensures
        (state.metrics.contains_key(name) && state.metrics[name] == shown[name]) || exists|
            i: int,
        |
            0 <= i < produced.len() && (#[trigger] produced[i]).contains_key(name)
                && produced[i][name] == shown[name],
{
    let layers = layers_of(state, produced, shown);
    let at = lemma_merged_origin(layers, name);
    if at > 0 {
        let layer = layers[at];
        let whole = produced[at - 1];
        assert(layer.submap_of(whole));
        assert(layer.dom().contains(name));
        assert(whole.dom().contains(name) && layer[name] == whole[name]);
    }
}

/// Where no set is registered, a snapshot shows only what the registry keeps, and
/// without a filter all of it.
pub proof fn lemma_snapshot_without_sets(state: RegistryState, shown: Map<Seq<char>, Metric>)
    requires
        state.set_names.len() == 0,
        state.shows(shown),
    ensures
        shown.submap_of(state.metrics),
        state.filter is None ==> shown == state.metrics,
{
    let produced = produced_of(state, shown);
    let layers = layers_of(state, produced, shown);
    assert(layers.drop_last() =~= Seq::empty());
    assert(merged(layers.drop_last()) =~= Map::empty());
    assert(layers.last() == layers[0]);
    assert(merged(layers) =~= layers[0]);
}

/// What a snapshot shows under a name that the registry does not keep comes from a set.
pub proof fn lemma_unkept_name_needs_a_set(
    state: RegistryState,
    shown: Map<Seq<char>, Metric>,
    name: Seq<char>,
)
    requires
        state.shows(shown),
        shown.contains_key(name),
        !state.metrics.contains_key(name),
    ensures
        state.set_names.len() > 0,
{
    let produced = produced_of(state, shown);
    lemma_snapshot_makes_nothing_up(state, produced, shown, name);
}

/// A registered set is there until it is taken out, and then it is gone: registering a
/// set under a new name and taking it out again leaves the registry as it was.
pub proof fn lemma_register_then_unregister(state: RegistryState, name: Seq<char>, set: SetHandle)
    requires
        state.valid(),
    ensures
        state.registered(name, set).valid(),
        state.registered(name, set).sets.contains_key(name),
        state.registered(name, set).sets[name] == set,
        state.registered(name, set).unregistered(name).valid(),
        !state.registered(name, set).unregistered(name).sets.contains_key(name),
        !state.registered(name, set).unregistered(name).set_names.contains(name),
        !state.sets.contains_key(name) ==> state.registered(name, set).unregistered(name) == state,
{
    lemma_registered_valid(state, name, set);
    lemma_unregistered_valid(state.registered(name, set), name);
    if !state.sets.contains_key(name) {
        let names = state.set_names;
        let longer = names.push(name);
        assert(!names.contains(name));
        assert(longer[names.len() as int] == name);
        assert(longer.contains(name));
        let at = longer.index_of(name);
        assert(0 <= at < longer.len() && longer[at] == name);
        if at < names.len() {
            assert(names[at] == name);
        }
        assert(longer.remove(at) =~= names);
        assert(state.sets.insert(name, set).remove(name) =~= state.sets);
        assert(state.registered(name, set).unregistered(name) =~= state);
    }
}

/// Registering a set under a name that is taken replaces the set that was there: of two
/// sets registered under one name, one after the other, only the second is left, at the
/// place in the order that the name had.
pub proof fn lemma_register_again_replaces(
    state: RegistryState,
    name: Seq<char>,
    first: SetHandle,
    second: SetHandle,
)
    ensures
        state.registered(name, first).registered(name, second) == state.registered(name, second),
        state.registered(name, first).registered(name, second).sets[name] == second,
{
    let names = state.set_names;
    if !names.contains(name) {
        assert(names.push(name)[names.len() as int] == name);
    }
    assert(state.registered(name, first).registered(name, second) =~= state.registered(
        name,
        second,
    ));
}

/// Taking out a set that is not registered changes nothing.
pub proof fn lemma_unregister_unknown_changes_nothing(state: RegistryState, name: Seq<char>)
    requires
        state.valid(),
        !state.sets.contains_key(name),
    ensures
        state.unregistered(name) == state,
{
    assert(state.sets.remove(name) =~= state.sets);
    assert(state.unregistered(name) =~= state);
}

/// Registering a set keeps the registration names in step with the sets.
pub proof fn lemma_registered_valid(state: RegistryState, name: Seq<char>, set: SetHandle)
    requires
        state.valid(),
    ensures
        state.registered(name, set).valid(),
{
    let names = state.set_names;
    let next = state.registered(name, set);
    if !names.contains(name) {
        let longer = names.push(name);
        assert(longer[names.len() as int] == name);
        assert forall|a: int, b: int|
            0 <= a < longer.len() && 0 <= b < longer.len() && a != b implies longer[a]
            != longer[b] by {
            if a < names.len() && b < names.len() {
                assert(names[a] != names[b]);
            } else if a < names.len() {
                assert(names[a] == longer[a]);
            } else {
                assert(names[b] == longer[b]);
            }
        }
        assert forall|k: Seq<char>| next.sets.contains_key(k) <==> longer.contains(k) by {
            if longer.contains(k) {
                let a = choose|a: int| 0 <= a < longer.len() && longer[a] == k;
                if a < names.len() {
                    assert(names[a] == k);
                }
            }
            if names.contains(k) {
                let a = choose|a: int| 0 <= a < names.len() && names[a] == k;
                assert(longer[a] == k);
            }
        }
    }
}

/// Taking a set out keeps the registration names in step with the sets.
pub proof fn lemma_unregistered_valid(state: RegistryState, name: Seq<char>)
    requires
        state.valid(),
    ensures
        state.unregistered(name).valid(),
        !state.unregistered(name).set_names.contains(name),
        !state.unregistered(name).sets.contains_key(name),
{
    let names = state.set_names;
    if names.contains(name) {
        let at = names.index_of(name);
        assert(0 <= at < names.len() && names[at] == name);
        let fewer = names.remove(at);
        assert forall|a: int| 0 <= a < fewer.len() implies fewer[a] == names[if a < at {
            a
        } else {
            a + 1
        }] by {}
        assert forall|a: int, b: int|
            0 <= a < fewer.len() && 0 <= b < fewer.len() && a != b implies fewer[a]
            != fewer[b] by {
            let a1 = if a < at { a } else { a + 1 };
            let b1 = if b < at { b } else { b + 1 };
            assert(names[a1] != names[b1]);
        }
        assert forall|k: Seq<char>| fewer.contains(k) <==> (names.contains(k) && k != name) by {
            if fewer.contains(k) {
                let a = choose|a: int| 0 <= a < fewer.len() && fewer[a] == k;
                let a1 = if a < at { a } else { a + 1 };
                assert(names[a1] == k);
                assert(a1 != at);
            }
            if names.contains(k) && k != name {
                let a = choose|a: int| 0 <= a < names.len() && names[a] == k;
                let a2 = if a < at { a } else { a - 1 };
                assert(fewer[a2] == k);
            }
        }
    }
}

} // verus!
