//! Needles, the matchable form of a pattern, and matchers, the two needles of one
//! specification.

use vstd::prelude::*;
use vstd::slice::slice_subrange;

use crate::bytes::{
    bytes_eq, ends_with, extend, find_wildcard, first_wildcard, has_wildcard, starts_with, to_vec,
};
use crate::match_group::types::{Item, ItemView};
use crate::object_id::{hex_id_bytes, is_hex_id, ObjectId};
use crate::refspec::{RefSpecRef, RefSpecView};

verus! {

/// One side of a specification in the form in which it is matched.
#[derive(Debug, Clone, Copy)]
pub enum Needle<'a> {
    /// There is no pattern: everything matches.
    Any,
    /// The pattern is a complete object identifier, matched against what an item points to.
    Object(ObjectId),
    /// The pattern is a name, matched against the whole name of an item.
    FullName(&'a [u8]),
    /// The pattern has a wildcard: what stands before it and what stands after it.
    Pattern { prefix: &'a [u8], suffix: &'a [u8] },
}

/// A needle as a mathematical value.
pub enum NeedleView {
    Any,
    Object(Seq<u8>),
    FullName(Seq<u8>),
    Pattern { prefix: Seq<u8>, suffix: Seq<u8> },
}

impl<'a> View for Needle<'a> {
    type V = NeedleView;

    open spec fn view(&self) -> NeedleView {
        match self {
            Needle::Any => NeedleView::Any,
            Needle::Object(id) => NeedleView::Object(id@),
            Needle::FullName(name) => NeedleView::FullName(name@),
            Needle::Pattern { prefix, suffix } => NeedleView::Pattern {
                prefix: prefix@,
                suffix: suffix@,
            },
        }
    }
}

/// The needle of a pattern that is no object identifier: split at its first
/// wildcard if it has one, a name otherwise.
pub open spec fn name_needle(pattern: Seq<u8>) -> NeedleView {
    if has_wildcard(pattern) {
        let pos = first_wildcard(pattern);
        NeedleView::Pattern { prefix: pattern.take(pos), suffix: pattern.skip(pos + 1) }
    } else {
        NeedleView::FullName(pattern)
    }
}

/// The needle of the source side of a specification.
pub open spec fn source_needle(pattern: Option<Seq<u8>>) -> NeedleView {
    match pattern {
        None => NeedleView::Any,
        Some(pattern) => if is_hex_id(pattern) {
            NeedleView::Object(hex_id_bytes(pattern))
        } else {
            name_needle(pattern)
        },
    }
}

/// The needle of the destination side of a specification. A destination is
/// always a name, also where it reads like an object identifier.
pub open spec fn destination_needle(pattern: Option<Seq<u8>>) -> NeedleView {
    match pattern {
        None => NeedleView::Any,
        Some(pattern) => name_needle(pattern),
    }
}

/// What the wildcard between `prefix` and `suffix` stands for in `name`, if `name`
/// begins with the one, ends with the other, and is long enough to hold both apart.
pub open spec fn glob_capture(prefix: Seq<u8>, suffix: Seq<u8>, name: Seq<u8>) -> Option<Seq<u8>> {
    if name.len() >= prefix.len() + suffix.len() && prefix.is_prefix_of(name) && suffix.is_suffix_of(
        name,
    ) {
        Some(name.subrange(prefix.len() as int, name.len() - suffix.len()))
    } else {
        None
    }
}

/// Whether `needle` matches the name `name`, and if so, what its wildcard stands
/// for: nothing, unless the needle is a pattern. An object identifier matches no name.
pub open spec fn name_captured(needle: NeedleView, name: Seq<u8>) -> Option<Seq<u8>> {
    match needle {
        NeedleView::Any => Some(Seq::empty()),
        NeedleView::Object(_) => None,
        NeedleView::FullName(full_name) => if name == full_name {
            Some(Seq::empty())
        } else {
            None
        },
        NeedleView::Pattern { prefix, suffix } => glob_capture(prefix, suffix, name),
    }
}

/// Whether `needle` matches `item`, and if so, what its wildcard stands for. An
/// object identifier is held against what the item points to, every other needle
/// against the item's name.
pub open spec fn captured(needle: NeedleView, item: ItemView) -> Option<Seq<u8>> {
    match needle {
        NeedleView::Object(id) => if item.target == id {
            Some(Seq::empty())
        } else {
            None
        },
        _ => name_captured(needle, item.full_ref_name),
    }
}

/// The name that `needle` stands for as a destination when its wildcard, if it has
/// one, is replaced by `capture`.
pub open spec fn expanded(needle: NeedleView, capture: Seq<u8>) -> Option<Seq<u8>> {
    match needle {
        NeedleView::Any => None,
        NeedleView::Object(_) => None,
        NeedleView::FullName(name) => Some(name),
        NeedleView::Pattern { prefix, suffix } => Some(prefix + capture + suffix),
    }
}

impl NeedleView {
    /// Whether the needle can stand on the destination side: an object identifier cannot.
    pub open spec fn is_destination(self) -> bool {
        !(self is Object)
    }
}

/// The view of an optional destination name.
pub open spec fn name_view(name: Option<Vec<u8>>) -> Option<Seq<u8>> {
    match name {
        Some(name) => Some(name@),
        None => None,
    }
}

/// The view of an optional pattern.
pub open spec fn pattern_view(pattern: Option<&[u8]>) -> Option<Seq<u8>> {
    match pattern {
        Some(pattern) => Some(pattern@),
        None => None,
    }
}

/// A pattern with a wildcard is no object identifier.
pub proof fn lemma_wildcard_is_no_hex_id(pattern: Seq<u8>)
    requires
        has_wildcard(pattern),
    ensures
        !is_hex_id(pattern),
{
    let k = choose|k: int| 0 <= k < pattern.len() && pattern[k] == crate::bytes::WILDCARD;
    assert(!crate::object_id::is_hex_digit(pattern[k]));
}

impl<'a> Needle<'a> {
    /// Splits `pattern` at its first wildcard, or takes it whole as a name.
    fn from_name(pattern: &'a [u8]) -> (r: Needle<'a>)
        ensures
            r@ == name_needle(pattern@),
            r@.is_destination(),
    {
        let len: usize = pattern.len();
        match find_wildcard(pattern) {
            Some(pos) => Needle::Pattern {
                prefix: slice_subrange(pattern, 0, pos),
                suffix: slice_subrange(pattern, pos + 1, len),
            },
            None => Needle::FullName(pattern),
        }
    }

    /// Classifies the source side of a specification.
    pub fn from_source(pattern: Option<&'a [u8]>) -> (r: Needle<'a>)
        ensures
            r@ == source_needle(pattern_view(pattern)),
    {
        match pattern {
            None => Needle::Any,
            Some(pattern) => {
                if find_wildcard(pattern).is_some() {
                    proof {
                        lemma_wildcard_is_no_hex_id(pattern@);
                    }
                    Needle::from_name(pattern)
                } else {
                    match ObjectId::from_hex(pattern) {
                        Some(id) => Needle::Object(id),
                        None => Needle::from_name(pattern),
                    }
                }
            },
        }
    }

    /// Classifies the destination side of a specification.
    pub fn from_destination(pattern: Option<&'a [u8]>) -> (r: Needle<'a>)
        ensures
            r@ == destination_needle(pattern_view(pattern)),
            r@.is_destination(),
    {
        match pattern {
            None => Needle::Any,
            Some(pattern) => Needle::from_name(pattern),
        }
    }

    /// Matches `item` against this needle and returns what the wildcard stands for.
    pub fn matches<'i>(&self, item: Item<'i>) -> (r: Option<&'i [u8]>)
        ensures
            pattern_view(r) == captured(self@, item@),
    {
        let name = item.full_ref_name;
        match self {
            Needle::Any => Some(slice_subrange(name, 0, 0)),
            Needle::Object(id) => {
                if id.same_as(item.target) {
                    Some(slice_subrange(name, 0, 0))
                } else {
                    None
                }
            },
            Needle::FullName(full_name) => {
                if bytes_eq(name, full_name) {
                    Some(slice_subrange(name, 0, 0))
                } else {
                    None
                }
            },
            Needle::Pattern { prefix, suffix } => {
                if prefix.len() <= name.len() && suffix.len() <= name.len() - prefix.len()
                    && starts_with(name, prefix) && ends_with(name, suffix) {
                    Some(slice_subrange(name, prefix.len(), name.len() - suffix.len()))
                } else {
                    None
                }
            },
        }
    }

    /// The destination name that this needle stands for, with `capture` in the place
    /// of its wildcard.
    pub fn expand(&self, capture: &[u8]) -> (r: Option<Vec<u8>>)
        requires
            self@.is_destination(),
        ensures
            name_view(r) == expanded(self@, capture@),
    {
        match self {
            Needle::Any => None,
            Needle::Object(_) => None,
            Needle::FullName(name) => Some(to_vec(name)),
            Needle::Pattern { prefix, suffix } => {
                let mut name = to_vec(prefix);
                extend(&mut name, capture);
                extend(&mut name, suffix);
                Some(name)
            },
        }
    }
}

/// The two needles of one specification.
#[derive(Debug, Clone, Copy)]
pub struct Matcher<'a> {
    /// The needle of the source side.
    pub lhs: Needle<'a>,
    /// The needle of the destination side.
    pub rhs: Needle<'a>,
}

/// A matcher as a mathematical value.
pub struct MatcherView {
    pub lhs: NeedleView,
    pub rhs: NeedleView,
}

impl<'a> View for Matcher<'a> {
    type V = MatcherView;

    open spec fn view(&self) -> MatcherView {
        MatcherView { lhs: self.lhs@, rhs: self.rhs@ }
    }
}

impl MatcherView {
    /// Whether the matcher can have come from a specification: its destination
    /// is no object identifier.
    pub open spec fn wf(self) -> bool {
        self.rhs.is_destination()
    }
}

/// The matcher of a specification.
pub open spec fn matcher_of(spec: RefSpecView) -> MatcherView {
    MatcherView { lhs: source_needle(spec.src), rhs: destination_needle(spec.dst) }
}

/// Whether `matcher` matches `item`, and the destination name if it does and has one.
pub open spec fn match_lhs(matcher: MatcherView, item: ItemView) -> (bool, Option<Seq<u8>>) {
    match captured(matcher.lhs, item) {
        Some(capture) => (true, expanded(matcher.rhs, capture)),
        None => (false, None),
    }
}

impl<'a> Matcher<'a> {
    /// Classifies both sides of `spec`.
    pub fn from_spec(spec: RefSpecRef<'a>) -> (r: Matcher<'a>)
        ensures
            r@ == matcher_of(spec@),
            r@.wf(),
    {
        Matcher { lhs: Needle::from_source(spec.src), rhs: Needle::from_destination(spec.dst) }
    }

    /// Matches `item` against the source side and returns whether it matched, and
    /// with a match the destination name, if the specification has a destination.
    pub fn matches_lhs(&self, item: Item<'_>) -> (r: (bool, Option<Vec<u8>>))
        requires
            self@.wf(),
        ensures
            (r.0, name_view(r.1)) == match_lhs(self@, item@),
    {
        match self.lhs.matches(item) {
            Some(capture) => (true, self.rhs.expand(capture)),
            None => (false, None),
        }
    }
}

} // verus!
