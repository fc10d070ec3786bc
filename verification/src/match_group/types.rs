//! The values that go into a match and come out of it.

use vstd::prelude::*;

use crate::object_id::ObjectId;
use crate::MatchGroup;

verus! {

/// A reference to match against the specifications of a group.
#[derive(Debug, Clone, Copy)]
pub struct Item<'a> {
    /// The full name of the reference, like `refs/heads/main`.
    pub full_ref_name: &'a [u8],
    /// The object that the reference points to.
    pub target: &'a ObjectId,
    /// The object that an annotated tag points to, if `target` is such a tag.
    pub tag: Option<&'a ObjectId>,
}

/// An item as a mathematical value.
pub struct ItemView {
    pub full_ref_name: Seq<u8>,
    pub target: Seq<u8>,
    pub tag: Option<Seq<u8>>,
}

impl<'a> View for Item<'a> {
    type V = ItemView;

    open spec fn view(&self) -> ItemView {
        ItemView {
            full_ref_name: self.full_ref_name@,
            target: self.target@,
            tag: match self.tag {
                Some(id) => Some(id@),
                None => None,
            },
        }
    }
}

impl<'a> DeepView for Item<'a> {
    type V = ItemView;

    open spec fn deep_view(&self) -> ItemView {
        self@
    }
}

/// The left-hand side of a mapping: what was matched.
#[derive(Debug, Clone, Copy, PartialEq, Eq, Hash)]
pub enum Source<'a> {
    /// The full name of a reference.
    FullName(&'a [u8]),
    /// An object that a specification asked for by its identifier.
    ObjectId(ObjectId),
}

/// A source as a mathematical value.
pub enum SourceView {
    FullName(Seq<u8>),
    ObjectId(Seq<u8>),
}

impl<'a> View for Source<'a> {
    type V = SourceView;

    open spec fn view(&self) -> SourceView {
        match self {
            Source::FullName(name) => SourceView::FullName(name@),
            Source::ObjectId(id) => SourceView::ObjectId(id@),
        }
    }
}

/// A pairing of something matched with the name it is mapped to.
#[derive(Debug, Clone)]
pub struct Mapping<'a> {
    /// The position of the matched item in the items given; `None` for an object
    /// that a specification named directly.
    pub item_index: Option<usize>,
    /// What was matched.
    pub lhs: Source<'a>,
    /// The destination name, if the specification has a destination.
    pub rhs: Option<Vec<u8>>,
    /// The position in the group of the specification that produced the mapping.
    pub spec_index: usize,
}

/// A mapping as a mathematical value.
pub struct MappingView {
    pub item_index: Option<int>,
    pub lhs: SourceView,
    pub rhs: Option<Seq<u8>>,
    pub spec_index: int,
}

impl MappingView {
    /// What identifies a mapping when duplicates are dropped: both of its sides,
    /// and neither of its indices.
    pub open spec fn key(self) -> (SourceView, Option<Seq<u8>>) {
        (self.lhs, self.rhs)
    }
}

impl<'a> View for Mapping<'a> {
    type V = MappingView;

    open spec fn view(&self) -> MappingView {
        MappingView {
            item_index: match self.item_index {
                Some(index) => Some(index as int),
                None => None,
            },
            lhs: self.lhs@,
            rhs: match self.rhs {
                Some(name) => Some(name@),
                None => None,
            },
            spec_index: self.spec_index as int,
        }
    }
}

impl<'a> DeepView for Mapping<'a> {
    type V = MappingView;

    open spec fn deep_view(&self) -> MappingView {
        self@
    }
}

/// What a match produced: the group that was matched and the mappings found.
#[derive(Debug, Clone)]
pub struct Outcome<'spec, 'item> {
    /// The group that produced the mappings.
    pub group: MatchGroup<'spec>,
    /// The mappings, without duplicates, in the order in which they were found.
    pub mappings: Vec<Mapping<'item>>,
}

} // verus!
