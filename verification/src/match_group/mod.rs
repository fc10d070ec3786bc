//! Groups of specifications and the matching of references against them.

use std::collections::hash_map::DefaultHasher;
use std::collections::BTreeSet;
use std::hash::Hasher;

use vstd::prelude::*;
use vstd::std_specs::hash::DefaultHasherAdditionalSpecFns;

use crate::bytes::bytes_eq;
use crate::match_group::laws::law_mappings_are_emissions;
use crate::match_group::lemmas::{
    escaping, lemma_deduplicated_origin, lemma_deduplicated_push, lemma_emitted_origin,
    lemma_filter_all, lemma_filter_step, lemma_name_mappings_step, lemma_object_mappings_step,
    lemma_spec_mappings_none, lemma_spec_mappings_step, lemma_surviving_none, lemma_surviving_step,
};
use crate::match_group::model::{
    deduplicated, emitted, excluded, excludes, has_key, is_exclusion, matched, name_mappings,
    names_object, object_mapping, object_mappings, spec_mappings, surviving, with_unique,
};
use crate::match_group::types::{Item, Mapping, MappingView, Outcome, Source, SourceView};
use crate::match_group::util::{matcher_of, source_needle, Matcher, Needle};
use crate::object_id::ObjectId;
use crate::refspec::{Mode, Operation, RefSpecRef, RefSpecView};

pub mod laws;
pub mod lemmas;
pub mod model;
pub mod types;
pub mod util;

verus! {

/// The specifications of one operation, in the order in which they were given.
#[derive(Debug, Clone)]
pub struct MatchGroup<'a> {
    /// The specifications; a mapping names the one that produced it by its position here.
    pub specs: Vec<RefSpecRef<'a>>,
}

/// The predicate that holds of the specifications for fetching.
pub open spec fn is_fetch() -> spec_fn(RefSpecView) -> bool {
    |spec: RefSpecView| spec.op == Operation::Fetch
}

impl<'a> MatchGroup<'a> {
    /// Makes a group of the specifications for fetching among `specs`, in their order.
    pub fn from_fetch_specs(specs: &[RefSpecRef<'a>]) -> (group: MatchGroup<'a>)
        ensures
            group.specs.deep_view() == specs.deep_view().filter(is_fetch()),
    {
        let mut kept: Vec<RefSpecRef<'a>> = Vec::new();
        let mut i: usize = 0;
        proof {
            reveal(Seq::filter);
            assert(specs.deep_view().take(0) =~= Seq::empty());
            assert(kept.deep_view() =~= Seq::empty());
        }
        while i < specs.len()
            invariant
                i <= specs.len(),
                kept.deep_view() == specs.deep_view().take(i as int).filter(is_fetch()),
            decreases specs.len() - i,
        {
            let spec = specs[i];
            proof {
                reveal(Seq::filter);
                let upto = specs.deep_view().take(i + 1);
                assert(upto.drop_last() =~= specs.deep_view().take(i as int));
                assert(upto.last() == spec@);
            }
            let ghost before = kept.deep_view();
            if spec.op == Operation::Fetch {
                kept.push(spec);
                assert(kept.deep_view() =~= before.push(spec@));
            }
            i += 1;
        }
        proof {
            assert(specs.deep_view().take(specs.len() as int) =~= specs.deep_view());
        }
        MatchGroup { specs: kept }
    }

    /// The specification that produced `mapping`.
    pub fn spec_by_mapping(&self, mapping: &Mapping<'_>) -> (spec: RefSpecRef<'a>)
        requires
            mapping.spec_index < self.specs.len(),
        ensures
            spec == self.specs[mapping.spec_index as int],
    {
        self.specs[mapping.spec_index]
    }
}

/// What is fed to the hasher for a key, write by write: a byte that tells a name
/// from an object and the bytes of either, then a byte that tells whether there
/// is a destination, and its bytes if there is one.
pub open spec fn key_bytes(key: (SourceView, Option<Seq<u8>>)) -> Seq<Seq<u8>> {
    let lhs = match key.0 {
        SourceView::FullName(name) => seq![seq![0u8], name],
        SourceView::ObjectId(id) => seq![seq![1u8], id],
    };
    match key.1 {
        Some(name) => lhs.push(seq![1u8]).push(name),
        None => lhs.push(seq![0u8]),
    }
}

/// The hash of a key.
pub open spec fn hash_of(key: (SourceView, Option<Seq<u8>>)) -> u64 {
    DefaultHasher::spec_finish(key_bytes(key))
}

/// Hashes what identifies `mapping`: both of its sides, and neither of its indices.
pub fn calculate_hash(mapping: &Mapping<'_>) -> (hash: u64)
    ensures
        hash == hash_of(mapping@.key()),
{
    let no: [u8; 1] = [0u8];
    let yes: [u8; 1] = [1u8];
    let mut state = DefaultHasher::new();
    match &mapping.lhs {
        Source::FullName(name) => {
            state.write(no.as_slice());
            state.write(name);
        },
        Source::ObjectId(id) => {
            state.write(yes.as_slice());
            state.write(id.as_bytes());
        },
    }
    match &mapping.rhs {
        Some(name) => {
            state.write(yes.as_slice());
            state.write(name.as_slice());
        },
        None => {
            state.write(no.as_slice());
        },
    }
    proof {
        assert(no@ =~= seq![0u8]);
        assert(yes@ =~= seq![1u8]);
        assert(state@ =~= key_bytes(mapping@.key()));
    }
    state.finish()
}

/// Whether two mappings have the same key.
pub fn same_key(a: &Mapping<'_>, b: &Mapping<'_>) -> (r: bool)
    ensures
        r == (a@.key() == b@.key()),
{
    let lhs = match (&a.lhs, &b.lhs) {
        (Source::FullName(x), Source::FullName(y)) => bytes_eq(x, y),
        (Source::ObjectId(x), Source::ObjectId(y)) => x.same_as(y),
        _ => false,
    };
    let rhs = match (&a.rhs, &b.rhs) {
        (Some(x), Some(y)) => bytes_eq(x.as_slice(), y.as_slice()),
        (None, None) => true,
        _ => false,
    };
    lhs && rhs
}

/// Whether `mappings` holds a mapping with the key of `mapping`.
fn holds_key(mappings: &Vec<Mapping<'_>>, mapping: &Mapping<'_>) -> (r: bool)
    ensures
        r == has_key(mappings.deep_view(), mapping@.key()),
{
    let mut i: usize = 0;
    while i < mappings.len()
        invariant
            i <= mappings.len(),
            forall|k: int| 0 <= k < i ==> (#[trigger] mappings.deep_view()[k]).key() != mapping@.key(),
        decreases mappings.len() - i,
    {
        if same_key(&mappings[i], mapping) {
            assert(mappings.deep_view()[i as int].key() == mapping@.key());
            return true;
        }
        i += 1;
    }
    false
}

/// Whether `seen` holds the hash of every mapping in `mappings`.
pub open spec fn covers(seen: Set<u64>, mappings: Seq<MappingView>) -> bool {
    forall|k: int| 0 <= k < mappings.len() ==> seen.contains(hash_of((#[trigger] mappings[k]).key()))
}

/// Puts `mapping` at the end of `out` unless a mapping with its key is there already.
/// `seen` holds the hashes of the keys in `out`: a new hash means a new key, and only
/// with a known hash are the keys themselves compared.
fn push_unique<'item>(out: &mut Vec<Mapping<'item>>, seen: &mut BTreeSet<u64>, mapping: Mapping<'item>)
    requires
        covers(old(seen)@, old(out).deep_view()),
    ensures
        final(out).deep_view() == with_unique(old(out).deep_view(), mapping@),
        covers(final(seen)@, final(out).deep_view()),
{
    let hash = calculate_hash(&mapping);
    let ghost before = out.deep_view();
    let is_new = seen.insert(hash);
    if is_new || !holds_key(out, &mapping) {
        proof {
            if has_key(before, mapping@.key()) {
                let k = choose|k: int| 0 <= k < before.len() && (#[trigger] before[k]).key() == mapping@.key();
                assert(old(seen)@.contains(hash_of(before[k].key())));
            }
        }
        out.push(mapping);
        assert(out.deep_view() =~= before.push(mapping@));
    }
}

/// Whether `matcher` is what the first pass keeps for `spec`: its matcher, unless
/// the source names an object, which that pass has then dealt with.
pub open spec fn is_kept_matcher(matcher: Option<Matcher<'_>>, spec: RefSpecView) -> bool {
    match matcher {
        Some(matcher) => matcher@ == matcher_of(spec) && matcher@.wf() && !(matcher@.lhs is Object),
        None => names_object(spec),
    }
}

/// Takes out of `out` the mappings of names that the source side of `matcher`
/// matches. `null_id` stands in for the object that such a name points to.
fn remove_matching<'item>(out: &mut Vec<Mapping<'item>>, matcher: &Matcher<'_>, null_id: &ObjectId)
    requires
        matcher@.wf(),
        !(matcher@.lhs is Object),
    ensures
        final(out).deep_view() == old(out).deep_view().filter(escaping(matcher@.lhs)),
{
    let ghost all = out.deep_view();
    let ghost stays = escaping(matcher@.lhs);
    let ghost mut done: int = 0;
    let mut i: usize = 0;
    proof {
        reveal(Seq::filter);
        assert(all.take(0) =~= Seq::empty());
        assert(out.deep_view() =~= all.take(0).filter(stays) + all.skip(0));
    }
    while i < out.len()
        invariant
            matcher@.wf(),
            !(matcher@.lhs is Object),
            stays == escaping(matcher@.lhs),
            0 <= done <= all.len(),
            i == all.take(done).filter(stays).len(),
            out.len() == i + all.len() - done,
            out.deep_view() == all.take(done).filter(stays) + all.skip(done),
        decreases all.len() - done,
    {
        let ghost before = out.deep_view();
        assert(before[i as int] == all[done]);
        let matches = match &out[i].lhs {
            Source::ObjectId(_) => false,
            Source::FullName(name) => matcher.matches_lhs(
                Item { full_ref_name: name, target: null_id, tag: None },
            ).0,
        };
        assert(matches == !stays(all[done]));
        proof {
            lemma_filter_step(all, stays, done);
        }
        let ghost kept = all.take(done).filter(stays);
        if matches {
            out.remove(i);
            assert(out.deep_view() =~= before.remove(i as int));
            assert(before.remove(i as int) =~= kept + all.skip(done + 1));
        } else {
            i += 1;
            assert(before =~= kept.push(all[done]) + all.skip(done + 1));
        }
        proof {
            done = done + 1;
        }
    }
    proof {
        assert(all.take(all.len() as int) =~= all);
        assert(out.deep_view() =~= all.filter(stays));
    }
}

/// Takes out of `out` the mappings of names that a negative specification
/// matches, specification by specification. `sample` is one of the items that were
/// matched: the null identifier of its kind stands in for what a name points to.
/// Only a match with an item and with a specification that can take mappings away
/// gets here, so no other match makes a null identifier.
fn remove_excluded<'a, 'item>(
    out: &mut Vec<Mapping<'item>>,
    specs: &Vec<RefSpecRef<'a>>,
    matchers: &Vec<Option<Matcher<'a>>>,
    sample: Item<'_>,
)
    requires
        matchers.len() == specs.len(),
        forall|k: int|
            0 <= k < matchers.len() ==> is_kept_matcher(#[trigger] matchers[k], specs.deep_view()[k]),
        exists|k: int| 0 <= k < specs.len() && is_exclusion(#[trigger] specs.deep_view()[k]),
    ensures
        final(out).deep_view() == old(out).deep_view().filter(surviving(specs.deep_view())),
{
    let ghost views = specs.deep_view();
    let ghost all = out.deep_view();
    let null_id = ObjectId::null(sample.target.kind());
    let mut spec_index: usize = 0;
    proof {
        assert(views.take(0) =~= Seq::empty());
        lemma_surviving_none(all);
    }
    while spec_index < specs.len()
        invariant
            views == specs.deep_view(),
            spec_index <= specs.len(),
            matchers.len() == specs.len(),
            forall|k: int|
                0 <= k < matchers.len() ==> is_kept_matcher(#[trigger] matchers[k], views[k]),
            out.deep_view() == all.filter(surviving(views.take(spec_index as int))),
        decreases specs.len() - spec_index,
    {
        proof {
            lemma_surviving_step(views, spec_index as int, all);
        }
        if specs[spec_index].mode == Mode::Negative {
            match &matchers[spec_index] {
                Some(matcher) => {
                    remove_matching(out, matcher, &null_id);
                },
                None => {
                    proof {
                        lemma_filter_all(
                            out.deep_view(),
                            escaping(source_needle(views[spec_index as int].src)),
                        );
                    }
                },
            }
        }
        spec_index += 1;
    }
    proof {
        assert(views.take(views.len() as int) =~= views);
    }
}

impl<'a> MatchGroup<'a> {
    /// Matches `items` against the specifications of the group and returns the
    /// mappings from source to destination, without duplicates. A specification
    /// whose source names an object yields a mapping without looking at the items.
    /// Negative specifications yield nothing: they take away the mappings of the
    /// names that they match.
    pub fn match_remotes<'item>(self, items: &[Item<'item>]) -> (outcome: Outcome<'a, 'item>)
        ensures
            outcome.group == self,
            outcome.mappings.deep_view() == matched(self.specs.deep_view(), items.deep_view()),
            forall|k: int|
                0 <= k < outcome.mappings.len() ==> (#[trigger] outcome.mappings[k]).spec_index
                    < self.specs.len(),
    {
        let ghost specs = self.specs.deep_view();
        let ghost refs = items.deep_view();
        let mut out: Vec<Mapping<'item>> = Vec::new();
        let mut seen: BTreeSet<u64> = BTreeSet::new();
        let no_capture: Vec<u8> = Vec::new();

        let mut matchers: Vec<Option<Matcher<'a>>> = Vec::new();
        let mut spec_index: usize = 0;
        proof {
            assert(specs.take(0) =~= Seq::empty());
            assert(out.deep_view() =~= Seq::empty());
        }
        while spec_index < self.specs.len()
            invariant
                specs == self.specs.deep_view(),
                no_capture@ == Seq::<u8>::empty(),
                spec_index <= self.specs.len(),
                matchers.len() == spec_index,
                forall|k: int|
                    0 <= k < spec_index ==> is_kept_matcher(#[trigger] matchers[k], specs[k]),
                out.deep_view() == deduplicated(object_mappings(specs.take(spec_index as int))),
                covers(seen@, out.deep_view()),
            decreases self.specs.len() - spec_index,
        {
            let matcher = Matcher::from_spec(self.specs[spec_index]);
            proof {
                lemma_object_mappings_step(specs, spec_index as int);
                lemma_deduplicated_push(
                    object_mappings(specs.take(spec_index as int)),
                    object_mapping(specs[spec_index as int], spec_index as int).unwrap(),
                );
            }
            match matcher.lhs {
                Needle::Object(id) => {
                    let rhs = matcher.rhs.expand(no_capture.as_slice());
                    push_unique(
                        &mut out,
                        &mut seen,
                        Mapping { item_index: None, lhs: Source::ObjectId(id), rhs, spec_index },
                    );
                    matchers.push(None);
                },
                _ => {
                    matchers.push(Some(matcher));
                },
            }
            spec_index += 1;
        }

        let ghost objects = object_mappings(specs);
        let mut has_negation = false;
        let mut spec_index: usize = 0;
        proof {
            assert(specs.take(specs.len() as int) =~= specs);
            assert(specs.take(0) =~= Seq::empty());
            assert(objects + name_mappings(specs.take(0), refs) =~= objects);
        }
        while spec_index < self.specs.len()
            invariant
                specs == self.specs.deep_view(),
                refs == items.deep_view(),
                objects == object_mappings(specs),
                spec_index <= self.specs.len(),
                matchers.len() == self.specs.len(),
                forall|k: int|
                    0 <= k < matchers.len() ==> is_kept_matcher(#[trigger] matchers[k], specs[k]),
                out.deep_view() == deduplicated(
                    objects + name_mappings(specs.take(spec_index as int), refs),
                ),
                covers(seen@, out.deep_view()),
                has_negation == (items.len() > 0 && exists|k: int|
                    0 <= k < spec_index && is_exclusion(#[trigger] specs[k])),
            decreases self.specs.len() - spec_index,
        {
            let spec = self.specs[spec_index];
            let ghost before = objects + name_mappings(specs.take(spec_index as int), refs);
            assert(spec@ == specs[spec_index as int]);
            match &matchers[spec_index] {
                None => {
                    proof {
                        lemma_spec_mappings_none(spec@, spec_index as int, refs);
                    }
                },
                Some(matcher) => {
                    if spec.mode == Mode::Negative {
                        if items.len() > 0 {
                            has_negation = true;
                        }
                        proof {
                            assert(is_exclusion(specs[spec_index as int]));
                            lemma_spec_mappings_none(spec@, spec_index as int, refs);
                        }
                    } else {
                        let mut item_index: usize = 0;
                        proof {
                            assert(refs.take(0) =~= Seq::empty());
                            assert(before + spec_mappings(spec@, spec_index as int, refs.take(0))
                                =~= before);
                        }
                        while item_index < items.len()
                            invariant
                                refs == items.deep_view(),
                                spec@ == specs[spec_index as int],
                                spec.mode != Mode::Negative,
                                spec_index < self.specs.len(),
                                item_index <= items.len(),
                                is_kept_matcher(Some(*matcher), spec@),
                                out.deep_view() == deduplicated(
                                    before + spec_mappings(
                                        spec@,
                                        spec_index as int,
                                        refs.take(item_index as int),
                                    ),
                                ),
                                covers(seen@, out.deep_view()),
                            decreases items.len() - item_index,
                        {
                            let item = items[item_index];
                            let ghost emitted_so_far = spec_mappings(
                                spec@,
                                spec_index as int,
                                refs.take(item_index as int),
                            );
                            proof {
                                assert(item@ == refs[item_index as int]);
                                lemma_spec_mappings_step(
                                    spec@,
                                    spec_index as int,
                                    refs,
                                    item_index as int,
                                );
                            }
                            let (is_match, rhs) = matcher.matches_lhs(item);
                            if is_match {
                                let mapping = Mapping {
                                    item_index: Some(item_index),
                                    lhs: Source::FullName(item.full_ref_name),
                                    rhs,
                                    spec_index,
                                };
                                proof {
                                    lemma_deduplicated_push(before + emitted_so_far, mapping@);
                                    assert((before + emitted_so_far).push(mapping@) =~= before
                                        + emitted_so_far.push(mapping@));
                                }
                                push_unique(&mut out, &mut seen, mapping);
                            }
                            item_index += 1;
                        }
                        proof {
                            assert(refs.take(refs.len() as int) =~= refs);
                        }
                    }
                },
            }
            proof {
                lemma_name_mappings_step(specs, refs, spec_index as int);
                assert(before + spec_mappings(spec@, spec_index as int, refs) =~= objects
                    + name_mappings(specs.take(spec_index + 1), refs));
            }
            spec_index += 1;
        }

        let ghost unique = deduplicated(emitted(specs, refs));
        proof {
            assert(specs.take(specs.len() as int) =~= specs);
        }
        if has_negation {
            remove_excluded(&mut out, &self.specs, &matchers, items[0]);
        } else {
            proof {
                assert forall|k: int| 0 <= k < unique.len() implies surviving(specs)(
                    #[trigger] unique[k],
                ) by {
                    let e = lemma_deduplicated_origin(emitted(specs, refs), k);
                    lemma_emitted_origin(specs, refs, e);
                    match unique[k].lhs {
                        SourceView::ObjectId(_) => {},
                        SourceView::FullName(name) => {
                            if excluded(specs, name) {
                                let j = choose|j: int|
                                    0 <= j < specs.len() && excludes(#[trigger] specs[j], name);
                                assert(is_exclusion(specs[j]));
                            }
                        },
                    }
                }
                lemma_filter_all(unique, surviving(specs));
            }
        }
        proof {
            assert forall|k: int| 0 <= k < out.len() implies (#[trigger] out[k]).spec_index
                < self.specs.len() by {
                law_mappings_are_emissions(specs, refs, k);
                assert(out.deep_view()[k].spec_index == out[k].spec_index);
            }
        }
        Outcome { group: self, mappings: out }
    }
}

} // verus!
