//! Object identifiers: fixed-size binary keys, with an all-zero value for each kind of hash.

use vstd::prelude::*;

verus! {

/// The hash algorithms that an identifier can come from.
#[derive(Debug, Clone, Copy, PartialEq, Eq, Hash, Structural)]
pub enum Kind {
    /// SHA-1, a digest of 20 bytes.
    Sha1,
}

impl Kind {
    /// The number of bytes of a digest of this kind.
    pub open spec fn len_in_bytes(&self) -> nat {
        20
    }
}

/// An identifier of an object.
#[derive(Debug, Clone, Copy, PartialEq, Eq, PartialOrd, Ord, Hash)]
pub enum ObjectId {
    /// A SHA-1 digest.
    Sha1([u8; 20]),
}

impl View for ObjectId {
    type V = Seq<u8>;

    /// The bytes of the digest.
    open spec fn view(&self) -> Seq<u8> {
        match self {
            ObjectId::Sha1(bytes) => bytes@,
        }
    }
}

/// Whether `byte` is one of `0-9`, `a-f`, `A-F`.
pub open spec fn is_hex_digit(byte: u8) -> bool {
    ||| 48 <= byte <= 57
    ||| 97 <= byte <= 102
    ||| 65 <= byte <= 70
}

/// The number that a hexadecimal digit stands for.
pub open spec fn hex_value(byte: u8) -> int {
    if 48 <= byte <= 57 {
        byte - 48
    } else if 97 <= byte <= 102 {
        byte - 97 + 10
    } else {
        byte - 65 + 10
    }
}

/// Whether `hex` is a complete identifier in hexadecimal notation: 40 digits.
pub open spec fn is_hex_id(hex: Seq<u8>) -> bool {
    &&& hex.len() == 40
    &&& forall|i: int| 0 <= i < 40 ==> is_hex_digit(#[trigger] hex[i])
}

/// The digest that 40 hexadecimal digits denote, two digits to the byte, the high one first.
pub open spec fn hex_id_bytes(hex: Seq<u8>) -> Seq<u8> {
    Seq::new(20, |i: int| (16 * hex_value(hex[2 * i]) + hex_value(hex[2 * i + 1])) as u8)
}

/// The digest of `len` bytes that are all zero.
pub open spec fn null_bytes(len: nat) -> Seq<u8> {
    Seq::new(len, |i: int| 0u8)
}

/// Calls `git_hash::ObjectId::from_hex`, which accepts exactly the inputs of 40
/// hexadecimal digits in either case and decodes each pair of digits into one byte.
/// Its error is dropped: the callers only ask whether the input is an identifier.
#[verifier::external_body]
fn decode_hex(hex: &[u8]) -> (r: Option<ObjectId>)
    ensures
        r is Some <==> is_hex_id(hex@),
        r matches Some(id) ==> id@ == hex_id_bytes(hex@),
{
    match git_hash::ObjectId::from_hex(hex) {
        Ok(git_hash::ObjectId::Sha1(bytes)) => Some(ObjectId::Sha1(bytes)),
        Err(_) => None,
    }
}

/// Calls `git_hash::ObjectId::null`, which gives the identifier of the kind whose
/// bytes are all zero.
#[verifier::external_body]
fn null_id(kind: Kind) -> (r: ObjectId)
    ensures
        r@ == null_bytes(kind.len_in_bytes()),
{
    let outside = match kind {
        Kind::Sha1 => git_hash::Kind::Sha1,
    };
    match git_hash::ObjectId::null(outside) {
        git_hash::ObjectId::Sha1(bytes) => ObjectId::Sha1(bytes),
    }
}

impl ObjectId {
    /// The kind of hash that this identifier comes from.
    pub open spec fn spec_kind(&self) -> Kind {
        match self {
            ObjectId::Sha1(_) => Kind::Sha1,
        }
    }

    /// The kind of hash that this identifier comes from.
    #[verifier::when_used_as_spec(spec_kind)]
    pub fn kind(&self) -> (r: Kind)
        ensures
            r == self.spec_kind(),
    {
        match self {
            ObjectId::Sha1(_) => Kind::Sha1,
        }
    }

    /// Reads an identifier from hexadecimal notation. The result is `None` unless
    /// `hex` is exactly 40 hexadecimal digits.
    pub fn from_hex(hex: &[u8]) -> (r: Option<ObjectId>)
        ensures
            r is Some <==> is_hex_id(hex@),
            r matches Some(id) ==> id@ == hex_id_bytes(hex@),
    {
        decode_hex(hex)
    }

    /// The identifier of `kind` whose bytes are all zero.
    pub fn null(kind: Kind) -> (r: ObjectId)
        ensures
            r@ == null_bytes(kind.len_in_bytes()),
            r.spec_kind() == kind,
    {
        null_id(kind)
    }

    /// The bytes of the digest.
    pub fn as_bytes(&self) -> (r: &[u8])
        ensures
            r@ == self@,
            r@.len() == self.spec_kind().len_in_bytes(),
    {
        match self {
            ObjectId::Sha1(bytes) => bytes.as_slice(),
        }
    }

    /// Whether two identifiers have the same bytes.
    pub fn same_as(&self, other: &ObjectId) -> (r: bool)
        ensures
            r == (self@ == other@),
    {
        crate::bytes::bytes_eq(self.as_bytes(), other.as_bytes())
    }
}

} // verus!
