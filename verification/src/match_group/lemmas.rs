//! Facts about the model that the matching algorithm is proved with.

use vstd::prelude::*;

use crate::match_group::model::{
    deduplicated, emitted, emitted_before, excluded, excludes, has_key, is_emission, name_mapping,
    name_mappings, names_object, object_mapping, object_mappings, spec_mappings, surviving,
    with_unique,
};
use crate::match_group::types::{ItemView, MappingView, SourceView};
use crate::match_group::util::{name_captured, source_needle, NeedleView};
use crate::refspec::{Mode, RefSpecView};

verus! {

/// One more specification adds its object mapping, if it has one, at the end.
pub proof fn lemma_object_mappings_step(specs: Seq<RefSpecView>, i: int)
    requires
        0 <= i < specs.len(),
    ensures
        object_mappings(specs.take(i + 1)) == match object_mapping(specs[i], i) {
            Some(mapping) => object_mappings(specs.take(i)).push(mapping),
            None => object_mappings(specs.take(i)),
        },
{
    assert(specs.take(i + 1).drop_last() =~= specs.take(i));
}

/// One more item adds its mapping, if the specification matches it, at the end.
pub proof fn lemma_spec_mappings_step(spec: RefSpecView, spec_index: int, items: Seq<ItemView>, j: int)
    requires
        0 <= j < items.len(),
    ensures
        spec_mappings(spec, spec_index, items.take(j + 1)) == match name_mapping(
            spec,
            spec_index,
            items[j],
            j,
        ) {
            Some(mapping) => spec_mappings(spec, spec_index, items.take(j)).push(mapping),
            None => spec_mappings(spec, spec_index, items.take(j)),
        },
{
    assert(items.take(j + 1).drop_last() =~= items.take(j));
}

/// One more specification adds its mappings for the items at the end.
pub proof fn lemma_name_mappings_step(specs: Seq<RefSpecView>, items: Seq<ItemView>, i: int)
    requires
        0 <= i < specs.len(),
    ensures
        name_mappings(specs.take(i + 1), items) == name_mappings(specs.take(i), items)
            + spec_mappings(specs[i], i, items),
{
    assert(specs.take(i + 1).drop_last() =~= specs.take(i));
}

/// A specification that is negative, or names an object, emits nothing for items.
pub proof fn lemma_spec_mappings_none(spec: RefSpecView, spec_index: int, items: Seq<ItemView>)
    requires
        spec.mode == Mode::Negative || names_object(spec),
    ensures
        spec_mappings(spec, spec_index, items) == Seq::<MappingView>::empty(),
    decreases items.len(),
{
    if items.len() > 0 {
        lemma_spec_mappings_none(spec, spec_index, items.drop_last());
    }
}

/// Dropping duplicates goes mapping by mapping.
pub proof fn lemma_deduplicated_push(mappings: Seq<MappingView>, mapping: MappingView)
    ensures
        deduplicated(mappings.push(mapping)) == with_unique(deduplicated(mappings), mapping),
{
    assert(mappings.push(mapping).drop_last() =~= mappings);
}

/// Filtering goes element by element.
pub proof fn lemma_filter_step<A>(s: Seq<A>, pred: spec_fn(A) -> bool, j: int)
    requires
        0 <= j < s.len(),
    ensures
        s.take(j + 1).filter(pred) == if pred(s[j]) {
            s.take(j).filter(pred).push(s[j])
        } else {
            s.take(j).filter(pred)
        },
{
    reveal(Seq::filter);
    assert(s.take(j + 1).drop_last() =~= s.take(j));
}

/// A filter that every element passes changes nothing.
pub proof fn lemma_filter_all<A>(s: Seq<A>, pred: spec_fn(A) -> bool)
    requires
        forall|k: int| 0 <= k < s.len() ==> pred(#[trigger] s[k]),
    ensures
        s.filter(pred) == s,
    decreases s.len(),
{
    reveal(Seq::filter);
    if s.len() > 0 {
        lemma_filter_all(s.drop_last(), pred);
        assert(s.drop_last().push(s.last()) =~= s);
    }
}

/// Two filters in a row are one filter by both predicates.
pub proof fn lemma_filter_twice<A>(
    s: Seq<A>,
    first: spec_fn(A) -> bool,
    second: spec_fn(A) -> bool,
    both: spec_fn(A) -> bool,
)
    requires
        forall|k: int| 0 <= k < s.len() ==> both(#[trigger] s[k]) == (first(s[k]) && second(s[k])),
    ensures
        s.filter(first).filter(second) == s.filter(both),
    decreases s.len(),
{
    reveal(Seq::filter);
    if s.len() > 0 {
        lemma_filter_twice(s.drop_last(), first, second, both);
        if first(s.last()) {
            let kept = s.drop_last().filter(first);
            assert(kept.push(s.last()).drop_last() =~= kept);
        }
    }
}

/// The predicate that holds of the mappings that `needle` leaves in place: those
/// of an object, and those of a name that it does not match.
pub open spec fn escaping(needle: NeedleView) -> spec_fn(MappingView) -> bool {
    |mapping: MappingView|
        match mapping.lhs {
            SourceView::ObjectId(_) => true,
            SourceView::FullName(name) => name_captured(needle, name) is None,
        }
}

/// A name is excluded by the first `i + 1` specifications if the first `i`
/// exclude it or the one after them does.
pub proof fn lemma_excluded_step(specs: Seq<RefSpecView>, i: int, name: Seq<u8>)
    requires
        0 <= i < specs.len(),
    ensures
        excluded(specs.take(i + 1), name) == (excluded(specs.take(i), name) || excludes(
            specs[i],
            name,
        )),
{
    let longer = specs.take(i + 1);
    let shorter = specs.take(i);
    if excluded(longer, name) {
        let k = choose|k: int| 0 <= k < longer.len() && excludes(#[trigger] longer[k], name);
        if k < i {
            assert(excludes(shorter[k], name));
        }
    }
    if excluded(shorter, name) {
        let k = choose|k: int| 0 <= k < shorter.len() && excludes(#[trigger] shorter[k], name);
        assert(excludes(longer[k], name));
    }
    if excludes(specs[i], name) {
        assert(excludes(longer[i], name));
    }
}

/// Applying one more specification to what survived the ones before it gives what
/// survives them all.
pub proof fn lemma_surviving_step(specs: Seq<RefSpecView>, i: int, mappings: Seq<MappingView>)
    requires
        0 <= i < specs.len(),
    ensures
        specs[i].mode == Mode::Negative ==> mappings.filter(surviving(specs.take(i))).filter(
            escaping(source_needle(specs[i].src)),
        ) == mappings.filter(surviving(specs.take(i + 1))),
        specs[i].mode != Mode::Negative ==> mappings.filter(surviving(specs.take(i)))
            == mappings.filter(surviving(specs.take(i + 1))),
{
    let before = surviving(specs.take(i));
    let after = surviving(specs.take(i + 1));
    let this = escaping(source_needle(specs[i].src));
    let always = |mapping: MappingView| true;
    assert forall|k: int| 0 <= k < mappings.len() implies after(#[trigger] mappings[k]) == (before(
        mappings[k],
    ) && (specs[i].mode != Mode::Negative || this(mappings[k]))) by {
        match mappings[k].lhs {
            SourceView::ObjectId(_) => {},
            SourceView::FullName(name) => {
                lemma_excluded_step(specs, i, name);
            },
        }
    }
    if specs[i].mode == Mode::Negative {
        lemma_filter_twice(mappings, before, this, after);
    } else {
        lemma_filter_twice(mappings, before, always, after);
        lemma_filter_all(mappings.filter(before), always);
    }
}

/// Without specifications every mapping survives.
pub proof fn lemma_surviving_none(mappings: Seq<MappingView>)
    ensures
        mappings.filter(surviving(Seq::<RefSpecView>::empty())) == mappings,
{
    lemma_filter_all(mappings, surviving(Seq::<RefSpecView>::empty()));
}

/// Each of the object mappings is emitted by the specification that it names.
pub proof fn lemma_object_mappings_origin(specs: Seq<RefSpecView>, items: Seq<ItemView>, k: int)
    requires
        0 <= k < object_mappings(specs).len(),
    ensures
        object_mappings(specs)[k].item_index is None,
        is_emission(specs, items, object_mappings(specs)[k]),
    decreases specs.len(),
{
    let before = object_mappings(specs.drop_last());
    if k < before.len() {
        lemma_object_mappings_origin(specs.drop_last(), items, k);
    }
}

/// Each of the mappings of one specification is emitted by it for the item that
/// the mapping names.
pub proof fn lemma_spec_mappings_origin(
    spec: RefSpecView,
    spec_index: int,
    items: Seq<ItemView>,
    k: int,
)
    requires
        0 <= k < spec_mappings(spec, spec_index, items).len(),
    ensures
        ({
            let mapping = spec_mappings(spec, spec_index, items)[k];
            &&& mapping.spec_index == spec_index
            &&& mapping.item_index matches Some(item_index)
            &&& 0 <= item_index < items.len()
            &&& name_mapping(spec, spec_index, items[item_index], item_index) == Some(mapping)
        }),
    decreases items.len(),
{
    let before = spec_mappings(spec, spec_index, items.drop_last());
    if k < before.len() {
        lemma_spec_mappings_origin(spec, spec_index, items.drop_last(), k);
    }
}

/// Each of the name mappings is emitted by the specification and for the item
/// that it names.
pub proof fn lemma_name_mappings_origin(specs: Seq<RefSpecView>, items: Seq<ItemView>, k: int)
    requires
        0 <= k < name_mappings(specs, items).len(),
    ensures
        name_mappings(specs, items)[k].item_index is Some,
        is_emission(specs, items, name_mappings(specs, items)[k]),
    decreases specs.len(),
{
    let before = name_mappings(specs.drop_last(), items);
    if k < before.len() {
        lemma_name_mappings_origin(specs.drop_last(), items, k);
    } else {
        lemma_spec_mappings_origin(specs.last(), specs.len() - 1, items, k - before.len());
    }
}

/// Everything emitted is emitted by the specification, and for the item, that it names.
pub proof fn lemma_emitted_origin(specs: Seq<RefSpecView>, items: Seq<ItemView>, k: int)
    requires
        0 <= k < emitted(specs, items).len(),
    ensures
        is_emission(specs, items, emitted(specs, items)[k]),
{
    if k < object_mappings(specs).len() {
        lemma_object_mappings_origin(specs, items, k);
    } else {
        lemma_name_mappings_origin(specs, items, k - object_mappings(specs).len());
    }
}

/// The key of each of `mappings` is still there when duplicates are dropped.
pub proof fn lemma_deduplicated_complete(mappings: Seq<MappingView>, e: int)
    requires
        0 <= e < mappings.len(),
    ensures
        has_key(deduplicated(mappings), mappings[e].key()),
    decreases mappings.len(),
{
    let before = deduplicated(mappings.drop_last());
    let after = deduplicated(mappings);
    if e < mappings.len() - 1 {
        lemma_deduplicated_complete(mappings.drop_last(), e);
        let k = choose|k: int| 0 <= k < before.len() && (#[trigger] before[k]).key() == mappings[e].key();
        assert(after[k].key() == mappings[e].key());
    } else if has_key(before, mappings.last().key()) {
    } else {
        assert(after[before.len() as int].key() == mappings[e].key());
    }
}

/// What stays when duplicates are dropped is, for each key, the first of
/// `mappings` with that key. The result is its position in `mappings`.
pub proof fn lemma_deduplicated_origin(mappings: Seq<MappingView>, k: int) -> (e: int)
    requires
        0 <= k < deduplicated(mappings).len(),
    ensures
        0 <= e < mappings.len(),
        mappings[e] == deduplicated(mappings)[k],
        forall|earlier: int|
            0 <= earlier < e ==> (#[trigger] mappings[earlier]).key() != mappings[e].key(),
    decreases mappings.len(),
{
    let shorter = mappings.drop_last();
    let before = deduplicated(shorter);
    if k < before.len() {
        let e = lemma_deduplicated_origin(shorter, k);
        assert forall|earlier: int| 0 <= earlier < e implies (#[trigger] mappings[earlier]).key()
            != mappings[e].key() by {
            assert(shorter[earlier] == mappings[earlier]);
        }
        e
    } else {
        assert(!has_key(before, mappings.last().key()));
        assert forall|earlier: int| 0 <= earlier < mappings.len() - 1 implies (
        #[trigger] mappings[earlier]).key() != mappings.last().key() by {
            assert(shorter[earlier] == mappings[earlier]);
            lemma_deduplicated_complete(shorter, earlier);
        }
        mappings.len() - 1
    }
}

/// No two of the mappings that stay when duplicates are dropped have one key.
pub proof fn lemma_deduplicated_unique(mappings: Seq<MappingView>, i: int, j: int)
    requires
        0 <= i < j < deduplicated(mappings).len(),
    ensures
        deduplicated(mappings)[i].key() != deduplicated(mappings)[j].key(),
    decreases mappings.len(),
{
    let before = deduplicated(mappings.drop_last());
    if j < before.len() {
        lemma_deduplicated_unique(mappings.drop_last(), i, j);
    } else {
        assert(before[i].key() == deduplicated(mappings)[i].key());
    }
}

/// The object mapping of each specification that has one is among the object mappings.
/// The result is its position there.
pub proof fn lemma_object_mapping_emitted(specs: Seq<RefSpecView>, i: int) -> (k: int)
    requires
        0 <= i < specs.len(),
        object_mapping(specs[i], i) is Some,
    ensures
        0 <= k < object_mappings(specs).len(),
        object_mappings(specs)[k] == object_mapping(specs[i], i).unwrap(),
    decreases specs.len(),
{
    let before = object_mappings(specs.drop_last());
    if i < specs.len() - 1 {
        lemma_object_mapping_emitted(specs.drop_last(), i)
    } else {
        before.len() as int
    }
}

/// A relation that holds of every two elements in their order still holds of
/// every two that a filter leaves.
pub proof fn lemma_filter_keeps_order(
    mappings: Seq<MappingView>,
    pred: spec_fn(MappingView) -> bool,
    related: spec_fn(MappingView, MappingView) -> bool,
    i: int,
    j: int,
)
    requires
        forall|a: int, b: int|
            0 <= a < b < mappings.len() ==> related(#[trigger] mappings[a], #[trigger] mappings[b]),
        0 <= i < j < mappings.filter(pred).len(),
    ensures
        related(mappings.filter(pred)[i], mappings.filter(pred)[j]),
    decreases mappings.len(),
{
    reveal(Seq::filter);
    let shorter = mappings.drop_last();
    let before = shorter.filter(pred);
    assert forall|a: int, b: int| 0 <= a < b < shorter.len() implies related(
        #[trigger] shorter[a],
        #[trigger] shorter[b],
    ) by {
        assert(shorter[a] == mappings[a] && shorter[b] == mappings[b]);
    }
    if j < before.len() {
        lemma_filter_keeps_order(shorter, pred, related, i, j);
    } else {
        assert(before.contains(before[i]));
        shorter.lemma_filter_contains_rev(pred, before[i]);
        let e = choose|e: int| 0 <= e < shorter.len() && shorter[e] == before[i];
        assert(related(mappings[e], mappings[mappings.len() - 1]));
    }
}

/// A relation that holds of every two mappings in their order still holds of
/// every two that are left when duplicates are dropped.
pub proof fn lemma_deduplicated_keeps_order(
    mappings: Seq<MappingView>,
    related: spec_fn(MappingView, MappingView) -> bool,
    i: int,
    j: int,
)
    requires
        forall|a: int, b: int|
            0 <= a < b < mappings.len() ==> related(#[trigger] mappings[a], #[trigger] mappings[b]),
        0 <= i < j < deduplicated(mappings).len(),
    ensures
        related(deduplicated(mappings)[i], deduplicated(mappings)[j]),
    decreases mappings.len(),
{
    let shorter = mappings.drop_last();
    let before = deduplicated(shorter);
    assert forall|a: int, b: int| 0 <= a < b < shorter.len() implies related(
        #[trigger] shorter[a],
        #[trigger] shorter[b],
    ) by {
        assert(shorter[a] == mappings[a] && shorter[b] == mappings[b]);
    }
    if j < before.len() {
        lemma_deduplicated_keeps_order(shorter, related, i, j);
    } else {
        let e = lemma_deduplicated_origin(shorter, i);
        assert(related(mappings[e], mappings[mappings.len() - 1]));
    }
}

/// The object mappings stand in the order of their specifications.
pub proof fn lemma_object_mappings_sorted(specs: Seq<RefSpecView>, a: int, b: int)
    requires
        0 <= a < b < object_mappings(specs).len(),
    ensures
        emitted_before(object_mappings(specs)[a], object_mappings(specs)[b]),
    decreases specs.len(),
{
    let none = Seq::<ItemView>::empty();
    let before = object_mappings(specs.drop_last());
    lemma_object_mappings_origin(specs, none, a);
    lemma_object_mappings_origin(specs, none, b);
    if b < before.len() {
        lemma_object_mappings_sorted(specs.drop_last(), a, b);
    } else {
        lemma_object_mappings_origin(specs.drop_last(), none, a);
    }
}

/// The mappings of one specification stand in the order of their items.
pub proof fn lemma_spec_mappings_sorted(
    spec: RefSpecView,
    spec_index: int,
    items: Seq<ItemView>,
    a: int,
    b: int,
)
    requires
        0 <= a < b < spec_mappings(spec, spec_index, items).len(),
    ensures
        emitted_before(
            spec_mappings(spec, spec_index, items)[a],
            spec_mappings(spec, spec_index, items)[b],
        ),
    decreases items.len(),
{
    let before = spec_mappings(spec, spec_index, items.drop_last());
    lemma_spec_mappings_origin(spec, spec_index, items, a);
    lemma_spec_mappings_origin(spec, spec_index, items, b);
    if b < before.len() {
        lemma_spec_mappings_sorted(spec, spec_index, items.drop_last(), a, b);
    } else {
        lemma_spec_mappings_origin(spec, spec_index, items.drop_last(), a);
    }
}

/// The name mappings stand in the order of their specifications, and those of one
/// specification in the order of their items.
pub proof fn lemma_name_mappings_sorted(specs: Seq<RefSpecView>, items: Seq<ItemView>, a: int, b: int)
    requires
        0 <= a < b < name_mappings(specs, items).len(),
    ensures
        emitted_before(name_mappings(specs, items)[a], name_mappings(specs, items)[b]),
    decreases specs.len(),
{
    let before = name_mappings(specs.drop_last(), items);
    let last = specs.len() - 1;
    if b < before.len() {
        lemma_name_mappings_sorted(specs.drop_last(), items, a, b);
    } else if a < before.len() {
        lemma_name_mappings_origin(specs.drop_last(), items, a);
        lemma_spec_mappings_origin(specs.last(), last, items, b - before.len());
    } else {
        lemma_spec_mappings_sorted(specs.last(), last, items, a - before.len(), b - before.len());
    }
}

/// Everything emitted stands in the order of emission.
pub proof fn lemma_emitted_sorted(specs: Seq<RefSpecView>, items: Seq<ItemView>, a: int, b: int)
    requires
        0 <= a < b < emitted(specs, items).len(),
    ensures
        emitted_before(emitted(specs, items)[a], emitted(specs, items)[b]),
{
    let objects = object_mappings(specs).len();
    if b < objects {
        lemma_object_mappings_sorted(specs, a, b);
    } else if a < objects {
        lemma_object_mappings_origin(specs, items, a);
        lemma_name_mappings_origin(specs, items, b - objects);
    } else {
        lemma_name_mappings_sorted(specs, items, a - objects, b - objects);
    }
}

} // verus!
