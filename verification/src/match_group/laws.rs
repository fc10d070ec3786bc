//! What holds of every match, stated over the model and proved from it.

use vstd::prelude::*;

use crate::bytes::{has_wildcard, lemma_first_wildcard, lemma_wildcards_counted, WILDCARD};
use crate::match_group::lemmas::{
    lemma_deduplicated_complete, lemma_deduplicated_keeps_order, lemma_deduplicated_origin,
    lemma_deduplicated_unique, lemma_emitted_origin, lemma_emitted_sorted, lemma_filter_keeps_order,
    lemma_object_mapping_emitted,
};
use crate::match_group::model::{
    deduplicated, emitted, emitted_before, has_key, is_emission, matched, names_object,
    object_mapping, survives, surviving,
};
use crate::match_group::types::{ItemView, MappingView, SourceView};
use crate::match_group::util::{
    captured, destination_needle, expanded, lemma_wildcard_is_no_hex_id, match_lhs, matcher_of,
    source_needle,
};
use crate::object_id::{hex_id_bytes, is_hex_id};
use crate::refspec::{Mode, RefSpecView};

verus! {

/// Matching is a function of its input: two matches of the same specifications
/// against the same items yield the same mappings in the same order, whatever
/// memory the specifications and items are held in.
pub proof fn law_deterministic(
    first_specs: Seq<RefSpecView>,
    first_items: Seq<ItemView>,
    second_specs: Seq<RefSpecView>,
    second_items: Seq<ItemView>,
)
    requires
        first_specs == second_specs,
        first_items == second_items,
    ensures
        matched(first_specs, first_items) == matched(second_specs, second_items),
{
}

/// No two mappings of a match have the same two sides.
pub proof fn law_no_duplicates(specs: Seq<RefSpecView>, items: Seq<ItemView>, i: int, j: int)
    requires
        0 <= i < j < matched(specs, items).len(),
    ensures
        matched(specs, items)[i].key() != matched(specs, items)[j].key(),
{
    let unique = deduplicated(emitted(specs, items));
    assert forall|a: int, b: int| 0 <= a < b < unique.len() implies (#[trigger] unique[a]).key() != (
    #[trigger] unique[b]).key() by {
        lemma_deduplicated_unique(emitted(specs, items), a, b);
    }
    let apart = |first: MappingView, second: MappingView| first.key() != second.key();
    lemma_filter_keeps_order(unique, surviving(specs), apart, i, j);
}

/// The mappings of a match stand in the order of emission: those of objects
/// first, in the order of their specifications; then those of names, in the order
/// of their specifications, and for one specification in the order of the items.
pub proof fn law_emission_order(specs: Seq<RefSpecView>, items: Seq<ItemView>, i: int, j: int)
    requires
        0 <= i < j < matched(specs, items).len(),
    ensures
        emitted_before(matched(specs, items)[i], matched(specs, items)[j]),
{
    let all = emitted(specs, items);
    let unique = deduplicated(all);
    let before = |first: MappingView, second: MappingView| emitted_before(first, second);
    assert forall|a: int, b: int| 0 <= a < b < all.len() implies before(
        #[trigger] all[a],
        #[trigger] all[b],
    ) by {
        lemma_emitted_sorted(specs, items, a, b);
    }
    assert forall|a: int, b: int| 0 <= a < b < unique.len() implies before(
        #[trigger] unique[a],
        #[trigger] unique[b],
    ) by {
        lemma_deduplicated_keeps_order(all, before, a, b);
    }
    lemma_filter_keeps_order(unique, surviving(specs), before, i, j);
}

/// Each mapping of a match is the first that was emitted with its two sides: where
/// several specifications, or several items, lead to the same two sides, the
/// mapping is attributed to the earliest in the order of emission. The result is
/// its position among the emitted mappings.
pub proof fn law_first_emission_wins(specs: Seq<RefSpecView>, items: Seq<ItemView>, k: int) -> (e: int)
    requires
        0 <= k < matched(specs, items).len(),
    ensures
        0 <= e < emitted(specs, items).len(),
        emitted(specs, items)[e] == matched(specs, items)[k],
        forall|earlier: int|
            0 <= earlier < e ==> (#[trigger] emitted(specs, items)[earlier]).key() != matched(
                specs,
                items,
            )[k].key(),
{
    let unique = deduplicated(emitted(specs, items));
    let mapping = matched(specs, items)[k];
    assert(matched(specs, items).contains(mapping));
    unique.lemma_filter_contains_rev(surviving(specs), mapping);
    let u = choose|u: int| 0 <= u < unique.len() && unique[u] == mapping;
    lemma_deduplicated_origin(emitted(specs, items), u)
}

/// The two sides of each emitted mapping that no negative specification excludes
/// are the two sides of a mapping of the match.
pub proof fn law_emitted_key_stays(specs: Seq<RefSpecView>, items: Seq<ItemView>, e: int)
    requires
        0 <= e < emitted(specs, items).len(),
        survives(specs, emitted(specs, items)[e]),
    ensures
        has_key(matched(specs, items), emitted(specs, items)[e].key()),
{
    let all = emitted(specs, items);
    let unique = deduplicated(all);
    lemma_deduplicated_complete(all, e);
    let u = choose|u: int| 0 <= u < unique.len() && (#[trigger] unique[u]).key() == all[e].key();
    assert(surviving(specs)(unique[u]));
    unique.lemma_filter_contains(surviving(specs), u);
    let result = matched(specs, items);
    let k = choose|k: int| 0 <= k < result.len() && result[k] == unique[u];
    assert(result[k].key() == all[e].key());
}

/// Each mapping of a match was emitted by the specification that it names, for the
/// item that it names if it names one. It names an item exactly if its source is
/// a name, and none exactly if its source is an object.
pub proof fn law_mappings_are_emissions(specs: Seq<RefSpecView>, items: Seq<ItemView>, k: int)
    requires
        0 <= k < matched(specs, items).len(),
    ensures
        is_emission(specs, items, matched(specs, items)[k]),
        0 <= matched(specs, items)[k].spec_index < specs.len(),
        matched(specs, items)[k].item_index is None <==> matched(specs, items)[k].lhs is ObjectId,
        matched(specs, items)[k].item_index matches Some(item_index) ==> 0 <= item_index
            < items.len() && matched(specs, items)[k].lhs == SourceView::FullName(
            items[item_index].full_ref_name,
        ),
{
    let e = law_first_emission_wins(specs, items, k);
    lemma_emitted_origin(specs, items, e);
}

/// No mapping of a match has a name for its source that a negative specification
/// of the group matches.
pub proof fn law_excluded_names_are_absent(specs: Seq<RefSpecView>, items: Seq<ItemView>, k: int)
    requires
        0 <= k < matched(specs, items).len(),
    ensures
        survives(specs, matched(specs, items)[k]),
{
    deduplicated(emitted(specs, items)).lemma_filter_pred(surviving(specs), k);
}

/// A specification whose source is a complete object identifier yields exactly one
/// mapping with that object for its source and the destination of the
/// specification, whatever the items are, and that mapping names no item. The
/// result is its position in the match.
pub proof fn law_object_id_bypass(specs: Seq<RefSpecView>, items: Seq<ItemView>, i: int) -> (k: int)
    requires
        0 <= i < specs.len(),
        specs[i].src matches Some(pattern) && is_hex_id(pattern),
    ensures
        0 <= k < matched(specs, items).len(),
        matched(specs, items)[k].lhs == SourceView::ObjectId(hex_id_bytes(specs[i].src.unwrap())),
        matched(specs, items)[k].rhs == expanded(destination_needle(specs[i].dst), Seq::empty()),
        matched(specs, items)[k].item_index is None,
        forall|other: int|
            0 <= other < matched(specs, items).len() && (#[trigger] matched(
                specs,
                items,
            )[other]).key() == matched(specs, items)[k].key() ==> other == k,
{
    let result = matched(specs, items);
    let mapping = object_mapping(specs[i], i).unwrap();
    let o = lemma_object_mapping_emitted(specs, i);
    assert(emitted(specs, items)[o] == mapping);
    law_emitted_key_stays(specs, items, o);
    let k = choose|k: int| 0 <= k < result.len() && (#[trigger] result[k]).key() == mapping.key();
    law_mappings_are_emissions(specs, items, k);
    assert forall|other: int| 0 <= other < result.len() && (#[trigger] result[other]).key()
        == result[k].key() implies other == k by {
        if other < k {
            law_no_duplicates(specs, items, other, k);
        }
        if k < other {
            law_no_duplicates(specs, items, k, other);
        }
    }
    k
}

/// Without items, specifications that are all positive and name no object yield
/// no mapping.
pub proof fn law_nothing_without_items(specs: Seq<RefSpecView>)
    requires
        forall|i: int|
            0 <= i < specs.len() ==> (#[trigger] specs[i]).mode == Mode::Positive && !names_object(
                specs[i],
            ),
    ensures
        matched(specs, Seq::<ItemView>::empty()) == Seq::<MappingView>::empty(),
{
    let items = Seq::<ItemView>::empty();
    let result = matched(specs, items);
    if result.len() > 0 {
        law_mappings_are_emissions(specs, items, 0);
        assert(specs[result[0].spec_index].mode == Mode::Positive);
    }
    assert(result =~= Seq::<MappingView>::empty());
}

/// Each mapping of a match names a specification of the group, and that
/// specification is not negative, as long as no negative specification of the
/// group names an object. (One that does yields the mapping of that object like
/// a positive one.)
pub proof fn law_attribution(specs: Seq<RefSpecView>, items: Seq<ItemView>, k: int)
    requires
        0 <= k < matched(specs, items).len(),
        forall|i: int|
            0 <= i < specs.len() ==> !((#[trigger] specs[i]).mode == Mode::Negative && names_object(
                specs[i],
            )),
    ensures
        0 <= matched(specs, items)[k].spec_index < specs.len(),
        specs[matched(specs, items)[k].spec_index].mode == Mode::Positive,
{
    law_mappings_are_emissions(specs, items, k);
    let index = matched(specs, items)[k].spec_index;
    assert(!(specs[index].mode == Mode::Negative && names_object(specs[index])));
}

/// A source without a wildcard that is no object identifier matches an item
/// exactly if it is the whole name of the item: a name that merely begins or
/// ends with it does not match.
pub proof fn law_literal_source_matches_exactly(pattern: Seq<u8>, item: ItemView)
    requires
        !has_wildcard(pattern),
        !is_hex_id(pattern),
    ensures
        captured(source_needle(Some(pattern)), item) is Some <==> item.full_ref_name == pattern,
{
}

/// A specification with one wildcard on each side maps a name that begins with
/// what stands before the wildcard of the source, and goes on to end with what
/// stands after it, to the destination with what lies between the two in the
/// place of its wildcard.
pub proof fn law_wildcard_capture(
    spec: RefSpecView,
    item: ItemView,
    source_prefix: Seq<u8>,
    source_suffix: Seq<u8>,
    destination_prefix: Seq<u8>,
    destination_suffix: Seq<u8>,
    middle: Seq<u8>,
)
    requires
        spec.src == Some(source_prefix + seq![WILDCARD] + source_suffix),
        spec.dst == Some(destination_prefix + seq![WILDCARD] + destination_suffix),
        !has_wildcard(source_prefix),
        !has_wildcard(destination_prefix),
        item.full_ref_name == source_prefix + middle + source_suffix,
    ensures
        match_lhs(matcher_of(spec), item) == (
            true,
            Some(destination_prefix + middle + destination_suffix),
        ),
{
    let src = spec.src.unwrap();
    let dst = spec.dst.unwrap();
    let name = item.full_ref_name;
    assert forall|k: int| 0 <= k < source_prefix.len() implies src[k] != WILDCARD by {
        assert(src[k] == source_prefix[k]);
    }
    assert forall|k: int| 0 <= k < destination_prefix.len() implies dst[k] != WILDCARD by {
        assert(dst[k] == destination_prefix[k]);
    }
    lemma_first_wildcard(src, source_prefix.len() as int);
    lemma_first_wildcard(dst, destination_prefix.len() as int);
    lemma_wildcard_is_no_hex_id(src);
    assert(src.take(source_prefix.len() as int) =~= source_prefix);
    assert(src.skip(source_prefix.len() as int + 1) =~= source_suffix);
    assert(dst.take(destination_prefix.len() as int) =~= destination_prefix);
    assert(dst.skip(destination_prefix.len() as int + 1) =~= destination_suffix);
    assert(name.subrange(0, source_prefix.len() as int) =~= source_prefix);
    assert(name.subrange(name.len() - source_suffix.len(), name.len() as int) =~= source_suffix);
    assert(name.subrange(source_prefix.len() as int, name.len() - source_suffix.len()) =~= middle);
}

/// In a specification that keeps the rule for wildcards and has a destination,
/// the source is a pattern exactly if the destination is one: what a wildcard
/// captures always has a wildcard to go to, and no wildcard is left without a
/// capture.
pub proof fn law_well_formed_sides_agree(spec: RefSpecView)
    requires
        spec.is_well_formed(),
        spec.dst is Some,
    ensures
        matcher_of(spec).lhs is Pattern <==> matcher_of(spec).rhs is Pattern,
{
    lemma_wildcards_counted(spec.dst.unwrap());
    if spec.src is Some {
        lemma_wildcards_counted(spec.src.unwrap());
        if has_wildcard(spec.src.unwrap()) {
            lemma_wildcard_is_no_hex_id(spec.src.unwrap());
        }
    }
}

} // verus!
