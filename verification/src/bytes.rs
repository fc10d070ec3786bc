//! Operations on byte strings, each stated over the sequence of bytes it reads.

use vstd::prelude::*;

verus! {

/// The byte that stands for "any run of bytes" in a pattern: `*`.
pub const WILDCARD: u8 = 42;

/// Whether `s` holds a wildcard at `pos` and none before it.
pub open spec fn is_first_wildcard(s: Seq<u8>, pos: int) -> bool {
    &&& 0 <= pos < s.len()
    &&& s[pos] == WILDCARD
    &&& forall|k: int| 0 <= k < pos ==> s[k] != WILDCARD
}

/// Whether `s` holds a wildcard anywhere.
pub open spec fn has_wildcard(s: Seq<u8>) -> bool {
    exists|k: int| 0 <= k < s.len() && s[k] == WILDCARD
}

/// The position of the first wildcard of `s`, where it has one.
pub open spec fn first_wildcard(s: Seq<u8>) -> int {
    choose|pos: int| is_first_wildcard(s, pos)
}

/// A sequence with a wildcard has exactly one first wildcard, and `first_wildcard` names it.
pub proof fn lemma_first_wildcard(s: Seq<u8>, pos: int)
    requires
        is_first_wildcard(s, pos),
    ensures
        has_wildcard(s),
        first_wildcard(s) == pos,
{
    let chosen = first_wildcard(s);
    assert(is_first_wildcard(s, chosen));
    if chosen < pos {
        assert(s[chosen] != WILDCARD);
    }
    if pos < chosen {
        assert(s[pos] != WILDCARD);
    }
}

/// Compares two byte strings.
pub fn bytes_eq(a: &[u8], b: &[u8]) -> (r: bool)
    ensures
        r == (a@ == b@),
{
    if a.len() != b.len() {
        return false;
    }
    let mut i: usize = 0;
    while i < a.len()
        invariant
            a.len() == b.len(),
            i <= a.len(),
            forall|k: int| 0 <= k < i ==> a@[k] == b@[k],
        decreases a.len() - i,
    {
        if a[i] != b[i] {
            return false;
        }
        i += 1;
    }
    assert(a@ =~= b@);
    true
}

/// Whether `name` begins with `prefix`.
pub fn starts_with(name: &[u8], prefix: &[u8]) -> (r: bool)
    ensures
        r == prefix@.is_prefix_of(name@),
{
    if prefix.len() > name.len() {
        return false;
    }
    let mut i: usize = 0;
    while i < prefix.len()
        invariant
            prefix.len() <= name.len(),
            i <= prefix.len(),
            forall|k: int| 0 <= k < i ==> name@[k] == prefix@[k],
        decreases prefix.len() - i,
    {
        if name[i] != prefix[i] {
            assert(name@.subrange(0, prefix@.len() as int)[i as int] != prefix@[i as int]);
            return false;
        }
        i += 1;
    }
    assert(prefix@ =~= name@.subrange(0, prefix@.len() as int));
    true
}

/// Whether `name` ends with `suffix`.
pub fn ends_with(name: &[u8], suffix: &[u8]) -> (r: bool)
    ensures
        r == suffix@.is_suffix_of(name@),
{
    if suffix.len() > name.len() {
        return false;
    }
    let start: usize = name.len() - suffix.len();
    let mut i: usize = 0;
    while i < suffix.len()
        invariant
            suffix.len() <= name.len(),
            start == name.len() - suffix.len(),
            i <= suffix.len(),
            forall|k: int| 0 <= k < i ==> name@[start + k] == suffix@[k],
        decreases suffix.len() - i,
    {
        if name[start + i] != suffix[i] {
            assert(name@.subrange(start as int, name@.len() as int)[i as int] != suffix@[i as int]);
            return false;
        }
        i += 1;
    }
    assert(suffix@ =~= name@.subrange(start as int, name@.len() as int));
    true
}

/// Finds the first wildcard of `s`.
pub fn find_wildcard(s: &[u8]) -> (r: Option<usize>)
    ensures
        r is Some <==> has_wildcard(s@),
        r matches Some(pos) ==> is_first_wildcard(s@, pos as int) && first_wildcard(s@) == pos,
{
    let mut i: usize = 0;
    while i < s.len()
        invariant
            i <= s.len(),
            forall|k: int| 0 <= k < i ==> s@[k] != WILDCARD,
        decreases s.len() - i,
    {
        if s[i] == WILDCARD {
            proof {
                lemma_first_wildcard(s@, i as int);
            }
            return Some(i);
        }
        i += 1;
    }
    None
}

/// Copies a byte string.
pub fn to_vec(s: &[u8]) -> (r: Vec<u8>)
    ensures
        r@ == s@,
{
    let mut out: Vec<u8> = Vec::with_capacity(s.len());
    let mut i: usize = 0;
    while i < s.len()
        invariant
            i <= s.len(),
            out@ == s@.take(i as int),
        decreases s.len() - i,
    {
        out.push(s[i]);
        i += 1;
        assert(out@ =~= s@.take(i as int));
    }
    assert(s@.take(s@.len() as int) =~= s@);
    out
}

/// Appends the bytes of `s` to `out`.
pub fn extend(out: &mut Vec<u8>, s: &[u8])
    ensures
        final(out)@ == old(out)@ + s@,
{
    let mut i: usize = 0;
    while i < s.len()
        invariant
            i <= s.len(),
            out@ == old(out)@ + s@.take(i as int),
        decreases s.len() - i,
    {
        out.push(s[i]);
        i += 1;
        assert(out@ =~= old(out)@ + s@.take(i as int));
    }
    assert(s@.take(s@.len() as int) =~= s@);
}

/// The predicate that holds of the wildcard byte.
pub open spec fn is_wildcard() -> spec_fn(u8) -> bool {
    |byte: u8| byte == WILDCARD
}

/// The number of wildcards in `s`.
pub open spec fn wildcards(s: Seq<u8>) -> nat {
    s.filter(is_wildcard()).len()
}

/// Counts the wildcards in `s`.
pub fn count_wildcards(s: &[u8]) -> (r: usize)
    ensures
        r == wildcards(s@),
{
    let mut count: usize = 0;
    let mut i: usize = 0;
    proof {
        reveal(Seq::filter);
        assert(s@.take(0) =~= Seq::empty());
    }
    while i < s.len()
        invariant
            i <= s.len(),
            count <= i,
            count == wildcards(s@.take(i as int)),
        decreases s.len() - i,
    {
        proof {
            reveal(Seq::filter);
            assert(s@.take(i + 1).drop_last() =~= s@.take(i as int));
        }
        if s[i] == WILDCARD {
            count += 1;
        }
        i += 1;
    }
    proof {
        assert(s@.take(s@.len() as int) =~= s@);
    }
    count
}

/// A byte string has a wildcard exactly if the number of its wildcards is not zero.
pub proof fn lemma_wildcards_counted(s: Seq<u8>)
    ensures
        has_wildcard(s) <==> wildcards(s) > 0,
{
    let found = s.filter(is_wildcard());
    if has_wildcard(s) {
        let k = choose|k: int| 0 <= k < s.len() && s[k] == WILDCARD;
        s.lemma_filter_contains(is_wildcard(), k);
    }
    if found.len() > 0 {
        s.lemma_filter_pred(is_wildcard(), 0);
        assert(found.contains(found[0]));
        s.lemma_filter_contains_rev(is_wildcard(), found[0]);
        let k = choose|k: int| 0 <= k < s.len() && s[k] == found[0];
        assert(s[k] == WILDCARD);
    }
}

} // verus!
