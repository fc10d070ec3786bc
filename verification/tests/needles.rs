use git_refspec::match_group::types::Item;
use git_refspec::match_group::util::{Matcher, Needle};
use git_refspec::object_id::ObjectId;
use git_refspec::{Mode, Operation, RefSpecRef};

const HEX: &str = "134385f6d781b7e97062102c6a483440bfda2a03";

fn spec<'a>(src: Option<&'a str>, dst: Option<&'a str>) -> RefSpecRef<'a> {
    RefSpecRef { mode: Mode::Positive, op: Operation::Fetch, src: src.map(str::as_bytes), dst: dst.map(str::as_bytes) }
}

fn matches(src: Option<&str>, dst: Option<&str>, name: &str) -> (bool, Option<String>) {
    let target = ObjectId::Sha1([7u8; 20]);
    let item = Item { full_ref_name: name.as_bytes(), target: &target, tag: None };
    let (matched, rhs) = Matcher::from_spec(spec(src, dst)).matches_lhs(item);
    (matched, rhs.map(|name| String::from_utf8(name).expect("utf8")))
}

#[test]
fn source_without_wildcard_is_a_full_name() {
    match Needle::from_source(Some(b"refs/heads/main")) {
        Needle::FullName(name) => assert_eq!(name, b"refs/heads/main"),
        other => panic!("unexpected needle {other:?}"),
    }
}

#[test]
fn source_with_wildcard_is_split_around_it() {
    match Needle::from_source(Some(b"refs/heads/*-wip")) {
        Needle::Pattern { prefix, suffix } => {
            assert_eq!(prefix, b"refs/heads/");
            assert_eq!(suffix, b"-wip");
        }
        other => panic!("unexpected needle {other:?}"),
    }
    match Needle::from_source(Some(b"*")) {
        Needle::Pattern { prefix, suffix } => {
            assert_eq!(prefix, b"");
            assert_eq!(suffix, b"");
        }
        other => panic!("unexpected needle {other:?}"),
    }
}

#[test]
fn absent_pattern_matches_all() {
    assert!(matches!(Needle::from_source(None), Needle::Any));
    assert!(matches!(Needle::from_destination(None), Needle::Any));
}

#[test]
fn hex_source_is_an_object() {
    match Needle::from_source(Some(HEX.as_bytes())) {
        Needle::Object(id) => assert_eq!(id, ObjectId::from_hex(HEX.as_bytes()).expect("hex")),
        other => panic!("unexpected needle {other:?}"),
    }
}

#[test]
fn hex_destination_stays_a_name() {
    match Needle::from_destination(Some(HEX.as_bytes())) {
        Needle::FullName(name) => assert_eq!(name, HEX.as_bytes()),
        other => panic!("unexpected needle {other:?}"),
    }
}

#[test]
fn short_or_broken_hex_source_is_a_name() {
    assert!(matches!(Needle::from_source(Some(&HEX.as_bytes()[..39])), Needle::FullName(_)));
    assert!(matches!(
        Needle::from_source(Some(b"134385fbroken7062102c6a483440bfda2a03xyz")),
        Needle::FullName(_)
    ));
    assert!(matches!(Needle::from_source(Some(b"")), Needle::FullName(_)));
}

#[test]
fn pattern_capture_is_substituted() {
    assert_eq!(
        matches(Some("refs/heads/*"), Some("refs/remotes/origin/*"), "refs/heads/main"),
        (true, Some("refs/remotes/origin/main".into()))
    );
    assert_eq!(
        matches(Some("refs/heads/*"), Some("refs/remotes/origin/*"), "refs/heads/feature/x"),
        (true, Some("refs/remotes/origin/feature/x".into()))
    );
    assert_eq!(
        matches(Some("refs/*/head"), Some("pull/*"), "refs/pull/7/head"),
        (true, Some("pull/pull/7".into()))
    );
}

#[test]
fn pattern_may_capture_nothing() {
    assert_eq!(
        matches(Some("refs/heads/*"), Some("refs/remotes/origin/*"), "refs/heads/"),
        (true, Some("refs/remotes/origin/".into()))
    );
}

#[test]
fn pattern_needs_room_for_prefix_and_suffix() {
    assert_eq!(matches(Some("ab*ba"), Some("x*"), "aba"), (false, None));
    assert_eq!(matches(Some("ab*ba"), Some("x*"), "abba"), (true, Some("x".into())));
    assert_eq!(matches(Some("ab*ba"), Some("x*"), "abcba"), (true, Some("xc".into())));
    assert_eq!(matches(Some("a*a"), None, "a"), (false, None));
}

#[test]
fn pattern_rejects_other_prefix_or_suffix() {
    assert_eq!(matches(Some("refs/heads/*"), Some("refs/remotes/origin/*"), "refs/tags/v1"), (false, None));
    assert_eq!(matches(Some("refs/heads/*"), Some("refs/remotes/origin/*"), "refs/head"), (false, None));
    assert_eq!(matches(Some("*/head"), Some("*"), "refs/pull/1/merge"), (false, None));
}

#[test]
fn full_name_matches_exactly() {
    assert_eq!(
        matches(Some("refs/heads/main"), Some("refs/remotes/origin/main"), "refs/heads/main"),
        (true, Some("refs/remotes/origin/main".into()))
    );
    assert_eq!(matches(Some("refs/heads/main"), Some("refs/remotes/origin/main"), "refs/heads/main2"), (false, None));
    assert_eq!(matches(Some("refs/heads/main"), Some("refs/remotes/origin/main"), "refs/heads/mai"), (false, None));
    assert_eq!(matches(Some("refs/heads/main"), Some("refs/remotes/origin/main"), ""), (false, None));
}

#[test]
fn no_destination_gives_none() {
    assert_eq!(matches(Some("refs/heads/*"), None, "refs/heads/main"), (true, None));
    assert_eq!(matches(Some("refs/heads/main"), None, "refs/heads/main"), (true, None));
}

#[test]
fn absent_source_matches_any_name() {
    assert_eq!(matches(None, Some("refs/heads/x"), "anything"), (true, Some("refs/heads/x".into())));
    assert_eq!(matches(None, None, ""), (true, None));
}

#[test]
fn object_source_is_held_against_the_target() {
    let same = ObjectId::from_hex(HEX.as_bytes()).expect("hex");
    let other = ObjectId::Sha1([7u8; 20]);
    let matcher = Matcher::from_spec(spec(Some(HEX), Some("refs/heads/x")));
    let hit = Item { full_ref_name: b"refs/heads/other", target: &same, tag: None };
    let miss = Item { full_ref_name: HEX.as_bytes(), target: &other, tag: Some(&same) };
    assert_eq!(matcher.matches_lhs(hit), (true, Some(b"refs/heads/x".to_vec())));
    assert_eq!(matcher.matches_lhs(miss), (false, None));
}

#[test]
fn expand_puts_the_capture_between_prefix_and_suffix() {
    let needle = Needle::from_destination(Some(b"refs/remotes/*/head"));
    assert_eq!(needle.expand(b"origin"), Some(b"refs/remotes/origin/head".to_vec()));
    assert_eq!(needle.expand(b""), Some(b"refs/remotes//head".to_vec()));
    assert_eq!(Needle::from_destination(Some(b"refs/x")).expand(b"ignored"), Some(b"refs/x".to_vec()));
    assert_eq!(Needle::from_destination(None).expand(b"ignored"), None);
}

#[test]
fn needle_matches_returns_the_capture() {
    let target = ObjectId::Sha1([0u8; 20]);
    let item = Item { full_ref_name: b"refs/heads/main", target: &target, tag: None };
    assert_eq!(Needle::from_source(Some(b"refs/*/main")).matches(item), Some(&b"heads"[..]));
    assert_eq!(Needle::from_source(Some(b"refs/heads/main")).matches(item), Some(&b""[..]));
    assert_eq!(Needle::from_source(Some(b"refs/heads/next")).matches(item), None);
    assert_eq!(Needle::from_source(None).matches(item), Some(&b""[..]));
}

#[test]
fn well_formed_specs_pair_their_wildcards() {
    assert!(spec(Some("refs/heads/*"), Some("refs/remotes/origin/*")).is_well_formed());
    assert!(spec(Some("refs/heads/main"), Some("refs/remotes/origin/main")).is_well_formed());
    assert!(spec(Some("refs/heads/*"), None).is_well_formed());
    assert!(spec(None, Some("refs/heads/main")).is_well_formed());
    assert!(spec(None, None).is_well_formed());
    assert!(spec(Some(HEX), Some("refs/heads/x")).is_well_formed());
    assert!(!spec(Some("refs/*/*"), Some("refs/remotes/*")).is_well_formed());
    assert!(!spec(Some("refs/heads/*"), Some("refs/*/origin/*")).is_well_formed());
    assert!(!spec(Some("refs/heads/*"), Some("refs/remotes/origin/main")).is_well_formed());
    assert!(!spec(Some("refs/heads/main"), Some("refs/remotes/origin/*")).is_well_formed());
    assert!(!spec(None, Some("refs/remotes/origin/*")).is_well_formed());
    assert!(!spec(Some("**"), None).is_well_formed());
}
