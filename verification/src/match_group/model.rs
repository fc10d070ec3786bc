//! What a match produces, as functions on mathematical values: the mappings that
//! the specifications emit, in order; the same without duplicates; and what is
//! left of those once the negative specifications have been applied.

use vstd::prelude::*;

use crate::match_group::types::{ItemView, MappingView, SourceView};
use crate::match_group::util::{
    captured, destination_needle, expanded, name_captured, source_needle, NeedleView,
};
use crate::refspec::{Mode, RefSpecView};

verus! {

/// Whether the source of `spec` names an object by its identifier.
pub open spec fn names_object(spec: RefSpecView) -> bool {
    source_needle(spec.src) is Object
}

/// The mapping that the specification at `spec_index` emits by itself, without
/// looking at any item: one for the object that its source names, if it names one.
/// The mode of the specification plays no part.
pub open spec fn object_mapping(spec: RefSpecView, spec_index: int) -> Option<MappingView> {
    match source_needle(spec.src) {
        NeedleView::Object(id) => Some(
            MappingView {
                item_index: None,
                lhs: SourceView::ObjectId(id),
                rhs: expanded(destination_needle(spec.dst), Seq::empty()),
                spec_index,
            },
        ),
        _ => None,
    }
}

/// The mapping that the specification at `spec_index` emits for the item at
/// `item_index`: none if the specification is negative or names an object, else
/// one if its source matches the item.
pub open spec fn name_mapping(
    spec: RefSpecView,
    spec_index: int,
    item: ItemView,
    item_index: int,
) -> Option<MappingView> {
    if spec.mode == Mode::Negative || names_object(spec) {
        None
    } else {
        match captured(source_needle(spec.src), item) {
            Some(capture) => Some(
                MappingView {
                    item_index: Some(item_index),
                    lhs: SourceView::FullName(item.full_ref_name),
                    rhs: expanded(destination_needle(spec.dst), capture),
                    spec_index,
                },
            ),
            None => None,
        }
    }
}

/// The mappings that the specifications emit for the objects they name, in the
/// order of the specifications.
pub open spec fn object_mappings(specs: Seq<RefSpecView>) -> Seq<MappingView>
    decreases specs.len(),
{
    if specs.len() == 0 {
        Seq::empty()
    } else {
        let before = object_mappings(specs.drop_last());
        match object_mapping(specs.last(), specs.len() - 1) {
            Some(mapping) => before.push(mapping),
            None => before,
        }
    }
}

/// The mappings that one specification emits for `items`, in the order of the items.
pub open spec fn spec_mappings(spec: RefSpecView, spec_index: int, items: Seq<ItemView>) -> Seq<
    MappingView,
>
    decreases items.len(),
{
    if items.len() == 0 {
        Seq::empty()
    } else {
        let before = spec_mappings(spec, spec_index, items.drop_last());
        match name_mapping(spec, spec_index, items.last(), items.len() - 1) {
            Some(mapping) => before.push(mapping),
            None => before,
        }
    }
}

/// The mappings that the specifications emit for `items`: specification by
/// specification, and for each of them item by item.
pub open spec fn name_mappings(specs: Seq<RefSpecView>, items: Seq<ItemView>) -> Seq<MappingView>
    decreases specs.len(),
{
    if specs.len() == 0 {
        Seq::empty()
    } else {
        name_mappings(specs.drop_last(), items) + spec_mappings(
            specs.last(),
            specs.len() - 1,
            items,
        )
    }
}

/// Everything that the specifications emit: first the mappings for the objects
/// they name, then those for the items.
pub open spec fn emitted(specs: Seq<RefSpecView>, items: Seq<ItemView>) -> Seq<MappingView> {
    object_mappings(specs) + name_mappings(specs, items)
}

/// Whether `mappings` holds a mapping with the key `key`.
pub open spec fn has_key(mappings: Seq<MappingView>, key: (SourceView, Option<Seq<u8>>)) -> bool {
    exists|k: int| 0 <= k < mappings.len() && (#[trigger] mappings[k]).key() == key
}

/// `mappings` with `mapping` at its end, unless its key is there already.
pub open spec fn with_unique(mappings: Seq<MappingView>, mapping: MappingView) -> Seq<MappingView> {
    if has_key(mappings, mapping.key()) {
        mappings
    } else {
        mappings.push(mapping)
    }
}

/// `mappings` without duplicates: of the mappings with one key only the first
/// stays, and what stays keeps its order.
pub open spec fn deduplicated(mappings: Seq<MappingView>) -> Seq<MappingView>
    decreases mappings.len(),
{
    if mappings.len() == 0 {
        Seq::empty()
    } else {
        with_unique(deduplicated(mappings.drop_last()), mappings.last())
    }
}

/// Whether `spec` can take mappings away: it is negative, and its source names no object.
pub open spec fn is_exclusion(spec: RefSpecView) -> bool {
    spec.mode == Mode::Negative && !names_object(spec)
}

/// Whether `spec` is negative and its source matches the name `name`.
pub open spec fn excludes(spec: RefSpecView, name: Seq<u8>) -> bool {
    spec.mode == Mode::Negative && name_captured(source_needle(spec.src), name) is Some
}

/// Whether one of `specs` excludes the name `name`.
pub open spec fn excluded(specs: Seq<RefSpecView>, name: Seq<u8>) -> bool {
    exists|k: int| 0 <= k < specs.len() && excludes(#[trigger] specs[k], name)
}

/// Whether `mapping` stays when the negative ones among `specs` are applied: a
/// mapping of an object always does, a mapping of a name unless it is excluded.
pub open spec fn survives(specs: Seq<RefSpecView>, mapping: MappingView) -> bool {
    match mapping.lhs {
        SourceView::ObjectId(_) => true,
        SourceView::FullName(name) => !excluded(specs, name),
    }
}

/// `survives` as a predicate on mappings.
pub open spec fn surviving(specs: Seq<RefSpecView>) -> spec_fn(MappingView) -> bool {
    |mapping: MappingView| survives(specs, mapping)
}

/// The mappings that matching `items` against `specs` yields: what the
/// specifications emit, without duplicates, less what a negative specification
/// excludes.
pub open spec fn matched(specs: Seq<RefSpecView>, items: Seq<ItemView>) -> Seq<MappingView> {
    deduplicated(emitted(specs, items)).filter(surviving(specs))
}

/// Whether the specification and the item that `mapping` names by their
/// positions emit `mapping`.
pub open spec fn is_emission(specs: Seq<RefSpecView>, items: Seq<ItemView>, mapping: MappingView) -> bool {
    &&& 0 <= mapping.spec_index < specs.len()
    &&& match mapping.item_index {
        None => object_mapping(specs[mapping.spec_index], mapping.spec_index) == Some(mapping),
        Some(item_index) => {
            &&& 0 <= item_index < items.len()
            &&& name_mapping(
                specs[mapping.spec_index],
                mapping.spec_index,
                items[item_index],
                item_index,
            ) == Some(mapping)
        },
    }
}

/// Whether `first` is emitted before `second`: the mapping of an object before
/// that of a name; of two mappings of objects the one of the earlier
/// specification; of two mappings of names the one of the earlier specification,
/// and with one specification the one of the earlier item.
pub open spec fn emitted_before(first: MappingView, second: MappingView) -> bool {
    match (first.item_index, second.item_index) {
        (None, None) => first.spec_index < second.spec_index,
        (None, Some(_)) => true,
        (Some(_), None) => false,
        (Some(a), Some(b)) => first.spec_index < second.spec_index || (first.spec_index
            == second.spec_index && a < b),
    }
}

} // verus!
