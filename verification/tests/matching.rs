use git_refspec::match_group::types::{Item, Mapping, Source};
use git_refspec::object_id::{Kind, ObjectId};
use git_refspec::{MatchGroup, Mode, Operation, RefSpecRef};

fn fetch<'a>(mode: Mode, src: Option<&'a str>, dst: Option<&'a str>) -> RefSpecRef<'a> {
    RefSpecRef { mode, op: Operation::Fetch, src: src.map(str::as_bytes), dst: dst.map(str::as_bytes) }
}

fn positive<'a>(src: &'a str, dst: &'a str) -> RefSpecRef<'a> {
    fetch(Mode::Positive, Some(src), Some(dst))
}

fn negative(src: &str) -> RefSpecRef<'_> {
    fetch(Mode::Negative, Some(src), None)
}

fn item<'a>(name: &'a str, target: &'a ObjectId) -> Item<'a> {
    Item { full_ref_name: name.as_bytes(), target, tag: None }
}

fn id(hex: &str) -> ObjectId {
    ObjectId::from_hex(hex.as_bytes()).expect("valid hex")
}

fn sides<'a>(mapping: &Mapping<'a>) -> (Option<usize>, Source<'a>, Option<Vec<u8>>, usize) {
    (mapping.item_index, mapping.lhs, mapping.rhs.clone(), mapping.spec_index)
}

fn name_mapping(item_index: usize, name: &str, rhs: &str, spec_index: usize) -> (Option<usize>, Source<'static>, Option<Vec<u8>>, usize) {
    let name: &'static [u8] = Box::leak(name.as_bytes().to_vec().into_boxed_slice());
    (Some(item_index), Source::FullName(name), Some(rhs.as_bytes().to_vec()), spec_index)
}

const ONE: &str = "1111111111111111111111111111111111111111";
const TWO: &str = "2222222222222222222222222222222222222222";

#[test]
fn wildcard_capture_builds_the_destination() {
    let target = id(ONE);
    let group = MatchGroup::from_fetch_specs(&[positive("refs/heads/*", "refs/remotes/origin/*")]);
    let out = group.match_remotes(&[item("refs/heads/main", &target)]);
    let got: Vec<_> = out.mappings.iter().map(sides).collect();
    assert_eq!(got, vec![name_mapping(0, "refs/heads/main", "refs/remotes/origin/main", 0)]);
}

#[test]
fn wildcard_in_the_middle_captures_between_prefix_and_suffix() {
    let target = id(ONE);
    let group = MatchGroup::from_fetch_specs(&[positive("refs/*/head", "refs/remotes/*/tip")]);
    let items = [
        item("refs/pull/12/head", &target),
        item("refs/pull/12/merge", &target),
        item("refs//head", &target),
        item("refs/head", &target),
    ];
    let out = group.match_remotes(&items);
    let got: Vec<_> = out.mappings.iter().map(sides).collect();
    assert_eq!(
        got,
        vec![
            name_mapping(0, "refs/pull/12/head", "refs/remotes/pull/12/tip", 0),
            name_mapping(2, "refs//head", "refs/remotes//tip", 0),
        ]
    );
}

#[test]
fn negative_spec_removes_what_it_matches() {
    let target = id(ONE);
    let group = MatchGroup::from_fetch_specs(&[
        positive("refs/heads/*", "refs/remotes/origin/*"),
        negative("refs/heads/wip-*"),
    ]);
    let items = [item("refs/heads/wip-1", &target), item("refs/heads/main", &target)];
    let out = group.match_remotes(&items);
    let got: Vec<_> = out.mappings.iter().map(sides).collect();
    assert_eq!(got, vec![name_mapping(1, "refs/heads/main", "refs/remotes/origin/main", 0)]);
}

#[test]
fn negative_spec_before_the_positive_one_removes_too() {
    let target = id(ONE);
    let group = MatchGroup::from_fetch_specs(&[
        negative("refs/heads/main"),
        positive("refs/heads/*", "refs/remotes/origin/*"),
    ]);
    let items = [item("refs/heads/main", &target), item("refs/heads/next", &target)];
    let out = group.match_remotes(&items);
    let got: Vec<_> = out.mappings.iter().map(sides).collect();
    assert_eq!(got, vec![name_mapping(1, "refs/heads/next", "refs/remotes/origin/next", 1)]);
}

#[test]
fn no_items_and_no_negation_yields_nothing() {
    let group = MatchGroup::from_fetch_specs(&[
        positive("refs/heads/*", "refs/remotes/origin/*"),
        positive("refs/heads/main", "refs/remotes/origin/main"),
    ]);
    let out = group.match_remotes(&[]);
    assert!(out.mappings.is_empty());
    assert_eq!(out.group.specs.len(), 2);
}

#[test]
fn no_items_with_negation_yields_nothing() {
    let group = MatchGroup::from_fetch_specs(&[
        positive("refs/heads/*", "refs/remotes/origin/*"),
        negative("refs/heads/main"),
    ]);
    let out = group.match_remotes(&[]);
    assert!(out.mappings.is_empty());
}

#[test]
fn literal_name_matches_only_the_whole_name() {
    let target = id(ONE);
    let group = MatchGroup::from_fetch_specs(&[positive("refs/heads/main", "refs/remotes/origin/main")]);
    let items = [
        item("refs/heads/main2", &target),
        item("xrefs/heads/main", &target),
        item("refs/heads/mai", &target),
        item("refs/heads/main", &target),
        item("refs/heads/main/sub", &target),
    ];
    let out = group.match_remotes(&items);
    let got: Vec<_> = out.mappings.iter().map(sides).collect();
    assert_eq!(got, vec![name_mapping(3, "refs/heads/main", "refs/remotes/origin/main", 0)]);
}

#[test]
fn equal_sides_from_two_specs_collapse_to_the_first() {
    let target = id(ONE);
    let group = MatchGroup::from_fetch_specs(&[
        positive("refs/heads/main", "refs/remotes/origin/main"),
        positive("refs/heads/*", "refs/remotes/origin/*"),
    ]);
    let items = [item("refs/heads/main", &target), item("refs/heads/next", &target)];
    let out = group.match_remotes(&items);
    let got: Vec<_> = out.mappings.iter().map(sides).collect();
    assert_eq!(
        got,
        vec![
            name_mapping(0, "refs/heads/main", "refs/remotes/origin/main", 0),
            name_mapping(1, "refs/heads/next", "refs/remotes/origin/next", 1),
        ]
    );
}

#[test]
fn equal_names_with_different_destinations_both_stay() {
    let target = id(ONE);
    let group = MatchGroup::from_fetch_specs(&[
        positive("refs/heads/*", "refs/remotes/origin/*"),
        positive("refs/heads/*", "refs/remotes/other/*"),
    ]);
    let out = group.match_remotes(&[item("refs/heads/main", &target)]);
    let got: Vec<_> = out.mappings.iter().map(sides).collect();
    assert_eq!(
        got,
        vec![
            name_mapping(0, "refs/heads/main", "refs/remotes/origin/main", 0),
            name_mapping(0, "refs/heads/main", "refs/remotes/other/main", 1),
        ]
    );
}

#[test]
fn an_item_given_twice_is_mapped_once() {
    let one = id(ONE);
    let two = id(TWO);
    let group = MatchGroup::from_fetch_specs(&[positive("refs/heads/*", "refs/remotes/origin/*")]);
    let items = [item("refs/heads/main", &one), item("refs/heads/main", &two)];
    let out = group.match_remotes(&items);
    let got: Vec<_> = out.mappings.iter().map(sides).collect();
    assert_eq!(got, vec![name_mapping(0, "refs/heads/main", "refs/remotes/origin/main", 0)]);
}

#[test]
fn object_id_spec_yields_one_mapping_without_items() {
    let group = MatchGroup::from_fetch_specs(&[positive(ONE, "refs/heads/special")]);
    let out = group.match_remotes(&[]);
    let got: Vec<_> = out.mappings.iter().map(sides).collect();
    assert_eq!(got, vec![(None, Source::ObjectId(id(ONE)), Some(b"refs/heads/special".to_vec()), 0)]);
}

#[test]
fn object_id_spec_comes_first_and_ignores_the_items() {
    let one = id(ONE);
    let group = MatchGroup::from_fetch_specs(&[
        positive("refs/heads/*", "refs/remotes/origin/*"),
        fetch(Mode::Positive, Some(TWO), None),
        positive(ONE, "refs/heads/one"),
        positive(ONE, "refs/heads/one"),
    ]);
    let items = [item("refs/heads/main", &one)];
    let out = group.match_remotes(&items);
    let got: Vec<_> = out.mappings.iter().map(sides).collect();
    assert_eq!(
        got,
        vec![
            (None, Source::ObjectId(id(TWO)), None, 1),
            (None, Source::ObjectId(id(ONE)), Some(b"refs/heads/one".to_vec()), 2),
            name_mapping(0, "refs/heads/main", "refs/remotes/origin/main", 0),
        ]
    );
}

#[test]
fn negative_specs_never_remove_object_mappings() {
    let one = id(ONE);
    let group = MatchGroup::from_fetch_specs(&[
        positive(ONE, "refs/heads/one"),
        fetch(Mode::Negative, None, None),
        positive("refs/heads/*", "refs/remotes/origin/*"),
    ]);
    let out = group.match_remotes(&[item("refs/heads/main", &one)]);
    let got: Vec<_> = out.mappings.iter().map(sides).collect();
    assert_eq!(got, vec![(None, Source::ObjectId(id(ONE)), Some(b"refs/heads/one".to_vec()), 0)]);
}

#[test]
fn a_negative_object_id_spec_emits_and_excludes_nothing() {
    let one = id(ONE);
    let group = MatchGroup::from_fetch_specs(&[
        fetch(Mode::Negative, Some(ONE), None),
        positive("refs/heads/*", "refs/remotes/origin/*"),
    ]);
    let out = group.match_remotes(&[item("refs/heads/main", &one)]);
    let got: Vec<_> = out.mappings.iter().map(sides).collect();
    assert_eq!(
        got,
        vec![
            (None, Source::ObjectId(id(ONE)), None, 0),
            name_mapping(0, "refs/heads/main", "refs/remotes/origin/main", 1),
        ]
    );
}

#[test]
fn absent_source_matches_everything() {
    let one = id(ONE);
    let group = MatchGroup::from_fetch_specs(&[fetch(Mode::Positive, None, Some("refs/heads/all"))]);
    let items = [item("refs/heads/main", &one), item("refs/tags/v1", &one)];
    let out = group.match_remotes(&items);
    let got: Vec<_> = out.mappings.iter().map(sides).collect();
    assert_eq!(
        got,
        vec![
            name_mapping(0, "refs/heads/main", "refs/heads/all", 0),
            name_mapping(1, "refs/tags/v1", "refs/heads/all", 0),
        ]
    );
}

#[test]
fn absent_destination_gives_no_right_hand_side() {
    let one = id(ONE);
    let group = MatchGroup::from_fetch_specs(&[fetch(Mode::Positive, Some("refs/heads/*"), None)]);
    let out = group.match_remotes(&[item("refs/heads/main", &one)]);
    let got: Vec<_> = out.mappings.iter().map(sides).collect();
    assert_eq!(got, vec![(Some(0), Source::FullName(b"refs/heads/main"), None, 0)]);
}

#[test]
fn repeated_matches_are_identical() {
    let one = id(ONE);
    let two = id(TWO);
    let specs = [
        positive("refs/heads/*", "refs/remotes/origin/*"),
        positive(TWO, "refs/heads/two"),
        negative("refs/heads/wip-*"),
        positive("refs/tags/*", "refs/tags/*"),
    ];
    let items = [
        item("refs/tags/v1", &two),
        item("refs/heads/wip-1", &one),
        item("refs/heads/main", &one),
        item("refs/heads/main", &one),
    ];
    let first = MatchGroup::from_fetch_specs(&specs).match_remotes(&items);
    let second = MatchGroup::from_fetch_specs(&specs).match_remotes(&items);
    let a: Vec<_> = first.mappings.iter().map(sides).collect();
    let b: Vec<_> = second.mappings.iter().map(sides).collect();
    assert_eq!(a, b);
    assert_eq!(
        a,
        vec![
            (None, Source::ObjectId(id(TWO)), Some(b"refs/heads/two".to_vec()), 1),
            name_mapping(2, "refs/heads/main", "refs/remotes/origin/main", 0),
            name_mapping(0, "refs/tags/v1", "refs/tags/v1", 3),
        ]
    );
}

#[test]
fn spec_by_mapping_returns_the_producing_spec() {
    let one = id(ONE);
    let specs = [
        fetch(Mode::Negative, Some("refs/heads/wip-*"), None),
        positive("refs/tags/*", "refs/tags/*"),
        positive("refs/heads/*", "refs/remotes/origin/*"),
    ];
    let items = [item("refs/heads/main", &one), item("refs/heads/wip-2", &one), item("refs/tags/v1", &one)];
    let out = MatchGroup::from_fetch_specs(&specs).match_remotes(&items);
    assert_eq!(out.mappings.len(), 2);
    for mapping in &out.mappings {
        let spec = out.group.spec_by_mapping(mapping);
        assert_eq!(spec, specs[mapping.spec_index]);
        assert_ne!(spec.mode, Mode::Negative);
    }
    assert_eq!(out.group.spec_by_mapping(&out.mappings[0]), specs[1]);
    assert_eq!(out.group.spec_by_mapping(&out.mappings[1]), specs[2]);
}

#[test]
fn from_fetch_specs_keeps_fetch_specs_in_order() {
    let push = RefSpecRef { mode: Mode::Positive, op: Operation::Push, src: Some(b"refs/heads/a"), dst: Some(b"refs/heads/b") };
    let a = positive("refs/heads/a", "refs/remotes/origin/a");
    let b = negative("refs/heads/b");
    let group = MatchGroup::from_fetch_specs(&[push, a, push, b, push]);
    assert_eq!(group.specs, vec![a, b]);
    assert!(MatchGroup::from_fetch_specs(&[push]).specs.is_empty());
    assert!(MatchGroup::from_fetch_specs(&[]).specs.is_empty());
}

#[test]
fn null_sample_comes_from_the_first_item() {
    let one = id(ONE);
    assert_eq!(ObjectId::null(one.kind()), id("0000000000000000000000000000000000000000"));
    assert_eq!(ObjectId::null(Kind::Sha1), ObjectId::Sha1([0u8; 20]));
}
