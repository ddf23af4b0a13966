use crate::filter::says;
use crate::filter::MetricsFilter;
use crate::metrics::Metric;
use crate::names::NameMap;
use vstd::prelude::*;

verus! {

/// The names of a layer that its verdicts let through: `names[i]` is among them where
/// `keep[i]` is there and true.
pub open spec fn chosen(names: Seq<Seq<char>>, keep: Seq<bool>) -> Set<Seq<char>> {
    Set::new(
        |k: Seq<char>| exists|i: int| 0 <= i < names.len() && i < keep.len() && keep[i] && names[i] == k,
    )
}

/// The layers folded into one map, the first at the bottom: where two layers hold one
/// name, the later layer's metric stays.
pub open spec fn merged(layers: Seq<Map<Seq<char>, Metric>>) -> Map<Seq<char>, Metric>
    decreases layers.len(),
{
    if layers.len() == 0 {
        Map::empty()
    } else {
        merged(layers.drop_last()).union_prefer_right(layers.last())
    }
}

/// What the maps of `maps` hold, place by place.
pub open spec fn views(maps: Seq<NameMap<Metric>>) -> Seq<Map<Seq<char>, Metric>> {
    Seq::new(maps.len(), |i: int| maps[i]@)
}

/// A name that any layer holds is in the merged map.
pub proof fn lemma_merged_contains(layers: Seq<Map<Seq<char>, Metric>>, i: int, name: Seq<char>)
    requires
        0 <= i < layers.len(),
        layers[i].contains_key(name),
    ensures
        merged(layers).contains_key(name),
    decreases layers.len(),
{
    if i < layers.len() - 1 {
        assert(layers.drop_last()[i] == layers[i]);
        lemma_merged_contains(layers.drop_last(), i, name);
    }
}

/// Last write wins: the merged map gives a name the metric of the last layer that
/// holds it.
pub proof fn lemma_merged_last_wins(layers: Seq<Map<Seq<char>, Metric>>, i: int, name: Seq<char>)
    requires
        0 <= i < layers.len(),
        layers[i].contains_key(name),
        forall|j: int| i < j < layers.len() ==> !layers[j].contains_key(name),
    ensures
        merged(layers).contains_key(name),
        merged(layers)[name] == layers[i][name],
    decreases layers.len(),
{
    if i < layers.len() - 1 {
        let front = layers.drop_last();
        assert(front[i] == layers[i]);
        assert forall|j: int| i < j < front.len() implies !front[j].contains_key(name) by {
            assert(front[j] == layers[j]);
        }
        lemma_merged_last_wins(front, i, name);
        assert(!layers.last().contains_key(name));
    }
}

/// Nothing comes from nowhere: a name of the merged map is held by some layer, and the
/// merged map gives it that layer's metric.
pub proof fn lemma_merged_origin(layers: Seq<Map<Seq<char>, Metric>>, name: Seq<char>) -> (i: int)
    requires
        merged(layers).contains_key(name),
    ensures
        0 <= i < layers.len(),
        layers[i].contains_key(name),
        merged(layers)[name] == layers[i][name],
    decreases layers.len(),
{
    if layers.last().contains_key(name) {
        layers.len() - 1
    } else {
        let i = lemma_merged_origin(layers.drop_last(), name);
        assert(layers.drop_last()[i] == layers[i]);
        i
    }
}

/// Verdicts that are all true, one for each name, let the whole layer through.
pub proof fn lemma_keep_all(layer: Map<Seq<char>, Metric>, names: Seq<Seq<char>>, keep: Seq<bool>)
    requires
        forall|k: Seq<char>| layer.contains_key(k) <==> names.contains(k),
        keep.len() == names.len(),
        forall|i: int| 0 <= i < keep.len() ==> keep[i],
    ensures
        layer.restrict(chosen(names, keep)) == layer,
{
    assert forall|k: Seq<char>| layer.contains_key(k) implies chosen(names, keep).contains(k) by {
        assert(names.contains(k));
        let i = choose|i: int| 0 <= i < names.len() && names[i] == k;
        assert(keep[i]);
    }
    assert(layer.restrict(chosen(names, keep)) =~= layer);
}

/// Asks a filter about one metric.
fn ask<F: MetricsFilter + ?Sized>(filter: &F, name: &str, metric: &Metric) -> (verdict: bool)
    ensures
        says::<F>(filter, name, metric, verdict),
{
    filter.accept(name, metric)
}

/// Whether `verdict` is a verdict on the metric `metric`, known as `name`: what the
/// filter may say of it when it is asked, and `true` where there is no filter.
pub open spec fn passes(
    filter: &Option<Box<dyn MetricsFilter>>,
    name: Seq<char>,
    metric: Metric,
    verdict: bool,
) -> bool {
    match *filter {
        Some(f) => exists|text: &str|
            text@ == name && #[trigger] says::<dyn MetricsFilter>(&*f, text, &metric, verdict),
        None => verdict,
    }
}

/// Whether `verdict` is a verdict on the entry at place `i` of `layer`.
pub open spec fn judged(
    filter: &Option<Box<dyn MetricsFilter>>,
    layer: &NameMap<Metric>,
    i: int,
    verdict: bool,
) -> bool {
    passes(filter, layer.names()[i], layer.values()[i], verdict)
}

/// Whether `layer` is what the filter lets through of `whole`: it holds entries of
/// `whole` only, and of every entry of `whole` there is a verdict, by which the entry is
/// in `layer` or not.
pub open spec fn sifted(
    filter: &Option<Box<dyn MetricsFilter>>,
    whole: Map<Seq<char>, Metric>,
    layer: Map<Seq<char>, Metric>,
) -> bool {
    &&& layer.submap_of(whole)
    &&& forall|name: Seq<char>| #[trigger]
        whole.contains_key(name) ==> passes(filter, name, whole[name], layer.contains_key(name))
}

/// What the verdicts on the entries of a layer let through is sifted from the layer.
pub proof fn lemma_chosen_is_sifted(
    filter: &Option<Box<dyn MetricsFilter>>,
    layer: &NameMap<Metric>,
    keep: Seq<bool>,
)
    requires
        layer.wf(),
        keep.len() == layer.names().len(),
        forall|i: int| 0 <= i < keep.len() ==> #[trigger] judged(filter, layer, i, keep[i]),
    ensures
        sifted(filter, layer@, layer@.restrict(chosen(layer.names(), keep))),
{
    let names = layer.names();
    let top = layer@.restrict(chosen(names, keep));
    layer.lemma_view();
    assert forall|name: Seq<char>| #[trigger] layer@.contains_key(name) implies passes(
        filter,
        name,
        layer@[name],
        top.contains_key(name),
    ) by {
        assert(names.contains(name));
        let i = choose|i: int| 0 <= i < names.len() && names[i] == name;
        assert(layer@[names[i]] == layer.values()[i]);
        assert(judged(filter, layer, i, keep[i]));
        if chosen(names, keep).contains(name) {
            let j = choose|j: int| 0 <= j < names.len() && j < keep.len() && keep[j] && names[j] == name;
            assert(j == i);
        }
        assert(top.contains_key(name) == keep[i]);
    }
}

/// Asks the filter about every entry of a layer, in the layer's order: the verdict at a
/// place is what the filter says of the entry at that place. Without a filter every
/// entry is let through.
pub fn verdicts(layer: &NameMap<Metric>, filter: &Option<Box<dyn MetricsFilter>>) -> (keep: Vec<
    bool,
>)
    ensures
        layer.wf(),
        keep.len() == layer.names().len(),
        forall|i: int| 0 <= i < keep.len() ==> #[trigger] judged(filter, layer, i, keep[i]),
        *filter is None ==> forall|i: int| 0 <= i < keep.len() ==> keep[i],
{
    let n = layer.len();
    let mut keep: Vec<bool> = Vec::new();
    let mut i: usize = 0;
    while i < n
        invariant
            i <= n,
            n == layer.names().len(),
            keep.len() == i,
            forall|j: int| 0 <= j < keep.len() ==> #[trigger] judged(filter, layer, j, keep[j]),
            *filter is None ==> forall|j: int| 0 <= j < keep.len() ==> keep[j],
        decreases n - i,
    {
        let name = layer.name_at(i);
        let metric = layer.value_at(i);
        let verdict = match filter {
            Some(f) => ask::<dyn MetricsFilter>(&**f, name, metric),
            None => true,
        };
        let ghost before = keep@;
        keep.push(verdict);
        proof {
            assert(judged(filter, layer, i as int, verdict)) by {
                if *filter is Some {
                    let f = (*filter)->Some_0;
                    assert(says::<dyn MetricsFilter>(&*f, name, &layer.values()[i as int], verdict));
                }
            }
            assert forall|j: int| 0 <= j < keep.len() implies #[trigger] judged(
                filter,
                layer,
                j,
                keep[j],
            ) by {
                if j < i {
                    assert(keep[j] == before[j]);
                    assert(judged(filter, layer, j, before[j]));
                }
            }
        }
        i += 1;
    }
    keep
}

/// Folds one layer into `acc`: every entry of `layer` whose verdict is true is put
/// into `acc`, over what `acc` held under that name. An entry without a verdict is
/// left out.
pub fn absorb(acc: &mut NameMap<Metric>, layer: &NameMap<Metric>, keep: &Vec<bool>)
    ensures
        final(acc).wf(),
        final(acc)@ == old(acc)@.union_prefer_right(
            layer@.restrict(chosen(layer.names(), keep@)),
        ),
{
    let n = layer.len();
    let ghost acc0 = acc@;
    let ghost names = layer.names();
    let mut i: usize = 0;
    proof {
        assert(acc0.union_prefer_right(layer@.restrict(chosen(names.take(0), keep@))) =~= acc0);
    }
    while i < n
        invariant
            i <= n,
            n == names.len(),
            names == layer.names(),
            layer.wf(),
            acc@ == acc0.union_prefer_right(
                layer@.restrict(chosen(names.take(i as int), keep@)),
            ),
        decreases n - i,
    {
        let ghost before = acc@;
        let ghost seen = chosen(names.take(i as int), keep@);
        let ghost next = chosen(names.take(i + 1), keep@);
        proof {
            layer.lemma_view();
            assert forall|k: Seq<char>| next.contains(k) <==> (seen.contains(k) || (i < keep.len()
                && keep[i as int] && k == names[i as int])) by {
                if next.contains(k) {
                    let j = choose|j: int|
                        0 <= j < names.take(i + 1).len() && j < keep@.len() && keep@[j]
                            && names.take(i + 1)[j] == k;
                    if j < i {
                        assert(names.take(i as int)[j] == k);
                    }
                }
                if seen.contains(k) {
                    let j = choose|j: int|
                        0 <= j < names.take(i as int).len() && j < keep@.len() && keep@[j]
                            && names.take(i as int)[j] == k;
                    assert(names.take(i + 1)[j] == k);
                }
                if i < keep.len() && keep[i as int] && k == names[i as int] {
                    assert(names.take(i + 1)[i as int] == k);
                }
            }
        }
        if i < keep.len() && keep[i] {
            acc.insert(layer.name_at(i).to_owned(), layer.value_at(i).clone());
            proof {
                assert(acc@ =~= acc0.union_prefer_right(layer@.restrict(next)));
            }
        } else {
            proof {
                assert(layer@.restrict(next) =~= layer@.restrict(seen));
            }
        }
        i += 1;
    }
    proof {
        assert(names.take(n as int) =~= names);
        use_type_invariant(&*acc);
    }
}

} // verus!
