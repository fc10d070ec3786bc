//! Reference specifications as a matcher consumes them: already parsed into an
//! operation, a mode and two optional patterns.

use vstd::prelude::*;

use crate::bytes::{count_wildcards, wildcards};

verus! {

/// What a specification is used for.
#[derive(Debug, Clone, Copy, PartialEq, Eq, Hash, Structural)]
pub enum Operation {
    /// The specification maps local references to remote ones.
    Push,
    /// The specification maps remote references to local ones.
    Fetch,
}

/// Whether a specification produces mappings or takes them away.
#[derive(Debug, Clone, Copy, PartialEq, Eq, Hash, Structural)]
pub enum Mode {
    /// References that match are mapped.
    Positive,
    /// References that match are excluded, whatever else matched them.
    Negative,
}

/// A parsed reference specification whose patterns are borrowed.
#[derive(Debug, Clone, Copy, PartialEq, Eq, Hash)]
pub struct RefSpecRef<'a> {
    /// Whether the specification maps or excludes.
    pub mode: Mode,
    /// The operation the specification belongs to.
    pub op: Operation,
    /// The pattern that names what is matched; absent, it matches everything.
    pub src: Option<&'a [u8]>,
    /// The pattern that the destination name is made from; absent, there is no destination.
    pub dst: Option<&'a [u8]>,
}

/// A reference specification as a mathematical value.
pub struct RefSpecView {
    pub mode: Mode,
    pub op: Operation,
    pub src: Option<Seq<u8>>,
    pub dst: Option<Seq<u8>>,
}

impl<'a> View for RefSpecRef<'a> {
    type V = RefSpecView;

    open spec fn view(&self) -> RefSpecView {
        RefSpecView {
            mode: self.mode,
            op: self.op,
            src: match self.src {
                Some(pattern) => Some(pattern@),
                None => None,
            },
            dst: match self.dst {
                Some(pattern) => Some(pattern@),
                None => None,
            },
        }
    }
}

impl<'a> DeepView for RefSpecRef<'a> {
    type V = RefSpecView;

    open spec fn deep_view(&self) -> RefSpecView {
        self@
    }
}

impl RefSpecView {
    /// The number of wildcards on the source side; none where there is no source.
    pub open spec fn source_wildcards(self) -> nat {
        match self.src {
            Some(pattern) => wildcards(pattern),
            None => 0,
        }
    }

    /// Whether the patterns keep the rule for wildcards: no pattern has more than
    /// one, and a destination has one exactly if the source has one.
    pub open spec fn is_well_formed(self) -> bool {
        &&& self.source_wildcards() <= 1
        &&& match self.dst {
            Some(pattern) => wildcards(pattern) == self.source_wildcards(),
            None => true,
        }
    }
}

impl<'a> RefSpecRef<'a> {
    /// Whether the patterns keep the rule for wildcards: no pattern has more than
    /// one, and a destination has one exactly if the source has one.
    pub fn is_well_formed(&self) -> (r: bool)
        ensures
            r == self@.is_well_formed(),
    {
        let in_source: usize = match self.src {
            Some(pattern) => count_wildcards(pattern),
            None => 0,
        };
        if in_source > 1 {
            return false;
        }
        match self.dst {
            Some(pattern) => count_wildcards(pattern) == in_source,
            None => true,
        }
    }
}

} // verus!
