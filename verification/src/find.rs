//! What an object database tells of an object without decoding it.

use vstd::prelude::*;

verus! {

/// The four kinds of objects.
#[derive(Debug, Copy, Clone, Eq, PartialEq, Ord, PartialOrd, Hash, Structural)]
pub enum Kind {
    Tree,
    Blob,
    Commit,
    Tag,
}

/// What decoding the header of an object in a pack yields.
#[derive(Debug, Copy, Clone, Eq, PartialEq, Ord, PartialOrd, Hash)]
pub struct PackedHeader {
    /// The kind of the object once its deltas are resolved.
    pub kind: Kind,
    /// The size of the object in bytes once it is decompressed.
    pub object_size: u64,
    /// The number of deltas that had to be resolved to reach the object.
    pub num_deltas: u32,
}

/// The header of an object: its properties, known without decoding it fully.
#[derive(Debug, Copy, Clone, Eq, PartialEq, Ord, PartialOrd, Hash)]
pub enum Header {
    /// The object is not in a pack but among the loose objects of the database.
    Loose {
        /// The kind of the object.
        kind: Kind,
        /// The size of the object's data in bytes.
        size: u64,
    },
    /// The object is in a pack. It may be in other packs, or loose, as well.
    Packed(PackedHeader),
}

impl Header {
    /// The kind of the object.
    pub open spec fn spec_kind(&self) -> Kind {
        match self {
            Header::Packed(out) => out.kind,
            Header::Loose { kind, .. } => *kind,
        }
    }

    /// The size of the object in bytes.
    pub open spec fn spec_size(&self) -> u64 {
        match self {
            Header::Packed(out) => out.object_size,
            Header::Loose { size, .. } => *size,
        }
    }

    /// The number of deltas, if the object is in a pack.
    pub open spec fn spec_num_deltas(&self) -> Option<u32> {
        match self {
            Header::Packed(out) => Some(out.num_deltas),
            Header::Loose { .. } => None,
        }
    }

    /// The kind of the object.
    #[verifier::when_used_as_spec(spec_kind)]
    pub fn kind(&self) -> (kind: Kind)
        ensures
            kind == self.spec_kind(),
    {
        match self {
            Header::Packed(out) => out.kind,
            Header::Loose { kind, .. } => *kind,
        }
    }

    /// The size of the object in bytes.
    #[verifier::when_used_as_spec(spec_size)]
    pub fn size(&self) -> (size: u64)
        ensures
            size == self.spec_size(),
    {
        match self {
            Header::Packed(out) => out.object_size,
            Header::Loose { size, .. } => *size,
        }
    }

    /// The number of deltas that were decoded to obtain this header, if the object
    /// is in a pack.
    #[verifier::when_used_as_spec(spec_num_deltas)]
    pub fn num_deltas(&self) -> (num_deltas: Option<u32>)
        ensures
            num_deltas == self.spec_num_deltas(),
    {
        match self {
            Header::Packed(out) => Some(out.num_deltas),
            Header::Loose { .. } => None,
        }
    }
}

impl From<PackedHeader> for Header {
    /// The header of an object in a pack.
    fn from(packed_header: PackedHeader) -> (header: Header) {
        Header::Packed(packed_header)
    }
}

impl vstd::std_specs::convert::FromSpecImpl<PackedHeader> for Header {
    open spec fn obeys_from_spec() -> bool {
        true
    }

    open spec fn from_spec(packed_header: PackedHeader) -> Header {
        Header::Packed(packed_header)
    }
}

impl From<(usize, Kind)> for Header {
    /// The header of a loose object of the given size and kind.
    fn from(loose: (usize, Kind)) -> (header: Header) {
        Header::Loose { kind: loose.1, size: loose.0 as u64 }
    }
}

impl vstd::std_specs::convert::FromSpecImpl<(usize, Kind)> for Header {
    open spec fn obeys_from_spec() -> bool {
        true
    }

    open spec fn from_spec(loose: (usize, Kind)) -> Header {
        Header::Loose { kind: loose.1, size: loose.0 as u64 }
    }
}

} // verus!
