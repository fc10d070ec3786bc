use git_refspec::bytes::{bytes_eq, count_wildcards, ends_with, extend, find_wildcard, starts_with, to_vec};
use git_refspec::match_group::calculate_hash;
use git_refspec::match_group::same_key;
use git_refspec::match_group::types::{Mapping, Source};
use git_refspec::object_id::{Kind, ObjectId};

#[test]
fn from_hex_decodes_pairs_of_digits() {
    let id = ObjectId::from_hex(b"134385f6d781b7e97062102c6a483440bfda2a03").expect("valid");
    assert_eq!(
        id,
        ObjectId::Sha1([
            0x13, 0x43, 0x85, 0xf6, 0xd7, 0x81, 0xb7, 0xe9, 0x70, 0x62, 0x10, 0x2c, 0x6a, 0x48, 0x34, 0x40, 0xbf, 0xda,
            0x2a, 0x03
        ])
    );
    assert_eq!(id.as_bytes()[0], 0x13);
    assert_eq!(id.as_bytes().len(), 20);
    assert_eq!(id.kind(), Kind::Sha1);
}

#[test]
fn from_hex_accepts_upper_case() {
    assert_eq!(
        ObjectId::from_hex(b"ABCDEF0123456789abcdef0123456789ABCDEFab"),
        ObjectId::from_hex(b"abcdef0123456789abcdef0123456789abcdefab")
    );
    assert!(ObjectId::from_hex(b"ABCDEF0123456789abcdef0123456789ABCDEFab").is_some());
}

#[test]
fn from_hex_rejects_other_lengths_and_digits() {
    assert_eq!(ObjectId::from_hex(b""), None);
    assert_eq!(ObjectId::from_hex(b"134385f6d781b7e97062102c6a483440bfda2a0"), None);
    assert_eq!(ObjectId::from_hex(b"134385f6d781b7e97062102c6a483440bfda2a030"), None);
    assert_eq!(ObjectId::from_hex(b"134385fbroken7062102c6a483440bfda2a03aaa"), None);
    assert_eq!(ObjectId::from_hex(b"134385f6d781b7e97062102c6a483440bfda2a0g"), None);
    assert_eq!(ObjectId::from_hex(b"134385f6d781b7e97062102c6a483440bfda2a0*"), None);
    assert_eq!(ObjectId::from_hex(b"refs/heads/main"), None);
}

#[test]
fn null_is_all_zero() {
    let null = ObjectId::null(Kind::Sha1);
    assert_eq!(null.as_bytes(), &[0u8; 20][..]);
    assert_eq!(null.kind(), Kind::Sha1);
    assert_eq!(Some(null), ObjectId::from_hex(b"0000000000000000000000000000000000000000"));
}

#[test]
fn same_as_compares_the_bytes() {
    let a = ObjectId::Sha1([1u8; 20]);
    let mut other = [1u8; 20];
    other[19] = 2;
    assert!(a.same_as(&ObjectId::Sha1([1u8; 20])));
    assert!(!a.same_as(&ObjectId::Sha1(other)));
}

#[test]
fn byte_string_helpers() {
    assert!(bytes_eq(b"abc", b"abc"));
    assert!(!bytes_eq(b"abc", b"abd"));
    assert!(!bytes_eq(b"abc", b"ab"));
    assert!(bytes_eq(b"", b""));
    assert!(starts_with(b"refs/heads/main", b"refs/"));
    assert!(starts_with(b"refs", b"refs"));
    assert!(starts_with(b"refs", b""));
    assert!(!starts_with(b"ref", b"refs"));
    assert!(!starts_with(b"xefs/heads", b"refs"));
    assert!(ends_with(b"refs/heads/main", b"/main"));
    assert!(ends_with(b"main", b""));
    assert!(!ends_with(b"ain", b"main"));
    assert!(!ends_with(b"refs/heads/main", b"/mein"));
    assert_eq!(find_wildcard(b"refs/heads/*"), Some(11));
    assert_eq!(find_wildcard(b"*a*"), Some(0));
    assert_eq!(find_wildcard(b"refs/heads/main"), None);
    assert_eq!(find_wildcard(b""), None);
    assert_eq!(to_vec(b"abc"), b"abc".to_vec());
    let mut out = b"ab".to_vec();
    extend(&mut out, b"cd");
    extend(&mut out, b"");
    assert_eq!(out, b"abcd".to_vec());
}

fn mapping(item_index: Option<usize>, lhs: Source<'static>, rhs: Option<&str>, spec_index: usize) -> Mapping<'static> {
    Mapping { item_index, lhs, rhs: rhs.map(|name| name.as_bytes().to_vec()), spec_index }
}

#[test]
fn hash_and_key_leave_the_indices_out() {
    let a = mapping(Some(0), Source::FullName(b"refs/heads/main"), Some("refs/remotes/origin/main"), 0);
    let b = mapping(Some(9), Source::FullName(b"refs/heads/main"), Some("refs/remotes/origin/main"), 4);
    assert_eq!(calculate_hash(&a), calculate_hash(&b));
    assert!(same_key(&a, &b));
}

#[test]
fn hash_and_key_tell_the_sides_apart() {
    let id = ObjectId::Sha1([3u8; 20]);
    let base = mapping(Some(0), Source::FullName(b"refs/heads/main"), Some("refs/remotes/origin/main"), 0);
    let others = [
        mapping(Some(0), Source::FullName(b"refs/heads/next"), Some("refs/remotes/origin/main"), 0),
        mapping(Some(0), Source::FullName(b"refs/heads/main"), Some("refs/remotes/origin/next"), 0),
        mapping(Some(0), Source::FullName(b"refs/heads/main"), None, 0),
        mapping(None, Source::ObjectId(id), Some("refs/remotes/origin/main"), 0),
        mapping(Some(0), Source::FullName(&[3u8; 20]), Some("refs/remotes/origin/main"), 0),
    ];
    for other in &others {
        assert!(!same_key(&base, other));
        assert_ne!(calculate_hash(&base), calculate_hash(other));
    }
    let object = mapping(None, Source::ObjectId(id), None, 1);
    assert!(same_key(&object, &mapping(None, Source::ObjectId(ObjectId::Sha1([3u8; 20])), None, 2)));
    assert!(!same_key(&object, &mapping(None, Source::ObjectId(ObjectId::Sha1([4u8; 20])), None, 1)));
}

#[test]
fn hash_is_the_same_on_every_call() {
    let a = mapping(None, Source::ObjectId(ObjectId::Sha1([9u8; 20])), Some("refs/heads/x"), 3);
    assert_eq!(calculate_hash(&a), calculate_hash(&a.clone()));
}

#[test]
fn wildcards_are_counted() {
    assert_eq!(count_wildcards(b""), 0);
    assert_eq!(count_wildcards(b"refs/heads/main"), 0);
    assert_eq!(count_wildcards(b"refs/heads/*"), 1);
    assert_eq!(count_wildcards(b"*/*/*"), 3);
}
