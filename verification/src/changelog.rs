//! The changelog document model: an ordered list of sections, with the
//! release ordering the engine maintains.

pub mod parse;
pub mod round_trip;
pub mod section;
pub mod segment;
pub mod write;

use vstd::prelude::*;
use vstd::multiset::Multiset;
use vstd::seq_lib::group_to_multiset_ensures;

use crate::changelog::section::Section;
use crate::version::{spec_cmp_date, spec_cmp_semver, cmp_date, cmp_semver, lemma_cmp_semver_anti, lemma_cmp_semver_range, SemVer};

verus! {

/// A release version: either the still-unreleased entry or a semantic
/// version.
#[derive(Debug, Clone, PartialEq, Eq)]
pub enum Version {
    /// The section that collects changes not yet released.
    Unreleased,
    /// A released semantic version.
    Semantic(SemVer),
}

/// The whole changelog document: its sections in order.
#[derive(Debug, Clone, PartialEq)]
pub struct ChangeLog {
    /// All sections, release and verbatim alike.
    pub sections: Vec<Section>,
}

impl ChangeLog {
    /// Every section of the document is well formed.
    pub open spec fn wf(self) -> bool {
        forall|i: int| 0 <= i < self.sections@.len() ==> (#[trigger] self.sections@[i]).wf()
    }
}

/// Three-way order of two release sections: the unreleased entry first, then
/// by date, newest first, dated before undated; undated ties compare by
/// version, highest first. Anything else ties.
pub open spec fn spec_cmp_release(a: Section, b: Section) -> int {
    match (a, b) {
        (
            Section::Release { name: na, date: da, .. },
            Section::Release { name: nb, date: db, .. },
        ) => {
            match (na, nb) {
                (Version::Unreleased, Version::Unreleased) => 0,
                (Version::Unreleased, Version::Semantic(_)) => -1,
                (Version::Semantic(_), Version::Unreleased) => 1,
                (Version::Semantic(va), Version::Semantic(vb)) => {
                    match (da, db) {
                        (Some(xa), Some(xb)) => -spec_cmp_date(xa, xb),
                        (Some(_), None) => -1,
                        (None, Some(_)) => 1,
                        (None, None) => -spec_cmp_semver(va, vb),
                    }
                },
            }
        },
        _ => 0,
    }
}

/// `a` sorts at or before `b`.
pub open spec fn spec_release_le(a: Section, b: Section) -> bool {
    spec_cmp_release(a, b) <= 0
}

/// The sections between `a` and `b` are exactly the release sections: at
/// most one leading non-release section before them, only trailing
/// non-release sections after them.
pub open spec fn spec_release_block(ss: Seq<Section>, a: int, b: int) -> bool {
    &&& forall|i: int| 0 <= i < a ==> !((#[trigger] ss[i]) is Release)
    &&& forall|i: int| a <= i < b ==> (#[trigger] ss[i]) is Release
    &&& forall|i: int| b <= i < ss.len() ==> !((#[trigger] ss[i]) is Release)
}

/// The layout the engine maintains: an optional leading non-release
/// section, then all release sections in one contiguous block, then any
/// trailing non-release sections.
pub open spec fn spec_release_layout(ss: Seq<Section>) -> bool {
    exists|a: int, b: int|
        0 <= a <= b <= ss.len() && a <= 1 && #[trigger] spec_release_block(ss, a, b)
}

/// Each section sorts at or before the next: the document order the engine
/// maintains for release sections.
pub open spec fn spec_sorted_releases(s: Seq<Section>) -> bool {
    forall|i: int| 0 <= i < s.len() - 1 ==> spec_release_le(#[trigger] s[i], s[i + 1])
}

/// The release order is antisymmetric: swapping the arguments flips the sign.
pub proof fn lemma_cmp_release_anti(a: Section, b: Section)
    ensures
        spec_cmp_release(a, b) == -spec_cmp_release(b, a),
{
    match (a, b) {
        (
            Section::Release { name: na, date: da, .. },
            Section::Release { name: nb, date: db, .. },
        ) => {
            match (na, nb) {
                (Version::Semantic(va), Version::Semantic(vb)) => {
                    if da is None && db is None {
                        lemma_cmp_semver_anti(va, vb);
                    }
                },
                _ => {},
            }
        },
        _ => {},
    }
}

/// The release order is total: one of the two always sorts first.
pub proof fn lemma_release_le_total(a: Section, b: Section)
    ensures
        spec_release_le(a, b) || spec_release_le(b, a),
{
    lemma_cmp_release_anti(a, b);
}

fn cmp_release(a: &Section, b: &Section) -> (r: i8)
    ensures
        r as int == spec_cmp_release(*a, *b),
{
    match (a, b) {
        (
            Section::Release { name: na, date: da, .. },
            Section::Release { name: nb, date: db, .. },
        ) => {
            match (na, nb) {
                (Version::Unreleased, Version::Unreleased) => 0,
                (Version::Unreleased, Version::Semantic(_)) => -1,
                (Version::Semantic(_), Version::Unreleased) => 1,
                (Version::Semantic(va), Version::Semantic(vb)) => {
                    match (da, db) {
                        (Some(xa), Some(xb)) => {
                            let c = cmp_date(xa, xb);
                            if c == 0 {
                                0
                            } else if c < 0 {
                                1
                            } else {
                                -1
                            }
                        },
                        (Some(_), None) => -1,
                        (None, Some(_)) => 1,
                        (None, None) => {
                            let c = cmp_semver(va, vb);
                            proof {
                                lemma_cmp_semver_range(*va, *vb);
                            }
                            if c == 0 {
                                0
                            } else if c < 0 {
                                1
                            } else {
                                -1
                            }
                        },
                    }
                },
            }
        },
        _ => 0,
    }
}

fn release_le(a: &Section, b: &Section) -> (r: bool)
    ensures
        r == spec_release_le(*a, *b),
{
    cmp_release(a, b) <= 0
}

/// One step of the insertion sort keeps the multiset balance: moving the
/// head of the remainder into the sorted prefix changes neither side.
proof fn lemma_sort_step(out0: Seq<Section>, rest0: Seq<Section>, full: Seq<Section>, p: int, x: Section)
    requires
        0 <= p <= out0.len(),
        rest0.len() > 0,
        rest0[0] == x,
        out0.to_multiset().add(rest0.to_multiset()) == full.to_multiset(),
    ensures
        out0.insert(p, x).to_multiset().add(rest0.remove(0).to_multiset()) == full.to_multiset(),
{
    broadcast use group_to_multiset_ensures, vstd::multiset::group_multiset_axioms;

    assert(out0.insert(p, x).to_multiset() =~= out0.to_multiset().insert(x));
    assert(rest0.remove(0).to_multiset() =~= rest0.to_multiset().remove(x));
    assert(rest0.contains(x)) by {
        assert(rest0[0] == x);
    }
    assert(rest0.to_multiset().count(x) > 0);
    assert(out0.insert(p, x).to_multiset().add(rest0.remove(0).to_multiset())
        =~= full.to_multiset());
}

/// An empty remainder contributes nothing to the multiset balance.
proof fn lemma_sort_done(out: Seq<Section>, rest: Seq<Section>, full: Seq<Section>)
    requires
        rest.len() == 0,
        out.to_multiset().add(rest.to_multiset()) == full.to_multiset(),
    ensures
        out.to_multiset() == full.to_multiset(),
        out.len() == full.len(),
{
    broadcast use group_to_multiset_ensures, vstd::multiset::group_multiset_axioms;

    assert(rest =~= Seq::<Section>::empty());
    assert(rest.to_multiset() =~= Multiset::<Section>::empty());
    assert(out.to_multiset() =~= full.to_multiset());
    assert(out.len() == out.to_multiset().len());
    assert(full.len() == full.to_multiset().len());
}

/// Inserts a section behind every element that sorts at or before it: the
/// insertion step of a stable insertion sort.
pub open spec fn spec_insert_release(ss: Seq<Section>, x: Section) -> Seq<Section>
    decreases ss.len(),
{
    if ss.len() > 0 && !spec_release_le(ss.last(), x) {
        spec_insert_release(ss.drop_last(), x).push(ss.last())
    } else {
        ss.push(x)
    }
}

/// The stable insertion sort of the sections, front to back: equal keys
/// keep their original relative order.
pub open spec fn spec_sort_releases(ss: Seq<Section>) -> Seq<Section>
    decreases ss.len(),
{
    if ss.len() == 0 {
        Seq::empty()
    } else {
        spec_insert_release(spec_sort_releases(ss.drop_last()), ss.last())
    }
}

/// Inserting at the first position from the right whose predecessor sorts
/// at or before the element is exactly the stable insertion step.
proof fn lemma_insert_at(ss: Seq<Section>, x: Section, p: int)
    requires
        0 <= p <= ss.len(),
        forall|k: int| p <= k < ss.len() ==> !spec_release_le(#[trigger] ss[k], x),
        p > 0 ==> spec_release_le(ss[p - 1], x),
    ensures
        spec_insert_release(ss, x) == ss.insert(p, x),
    decreases ss.len(),
{
    if ss.len() > 0 && !spec_release_le(ss.last(), x) {
        assert(p < ss.len());
        assert forall|k: int|
            p <= k < ss.drop_last().len() implies !spec_release_le(
            #[trigger] ss.drop_last()[k],
            x,
        ) by {
            assert(ss.drop_last()[k] == ss[k]);
        }
        lemma_insert_at(ss.drop_last(), x, p);
        assert(spec_insert_release(ss, x) =~= ss.insert(p, x)) by {
            assert(spec_insert_release(ss.drop_last(), x) == ss.drop_last().insert(p, x));
        }
    } else {
        assert(p == ss.len()) by {
            if p < ss.len() {
                assert(!spec_release_le(ss[p], x));
            }
        }
        assert(ss.insert(p, x) =~= ss.push(x));
    }
}

/// Sorts release sections: the result is exactly the stable insertion sort
/// of the input, so it is a rearrangement whose every adjacent pair is in
/// order and whose equal keys keep their original relative order.
pub fn sort_releases(input: Vec<Section>) -> (r: Vec<Section>)
    ensures
        r@ == spec_sort_releases(input@),
        spec_sorted_releases(r@),
        r@.to_multiset() == input@.to_multiset(),
        r@.len() == input@.len(),
{
    let mut rest = input;
    let mut out: Vec<Section> = Vec::new();
    let ghost full = rest@;
    proof {
        broadcast use group_to_multiset_ensures, vstd::multiset::group_multiset_axioms;

        assert(out@.to_multiset().add(rest@.to_multiset()) =~= full.to_multiset());
    }
    proof {
        assert(full.subrange(0, 0) =~= Seq::<Section>::empty());
        assert(out@ =~= spec_sort_releases(full.subrange(0, 0)));
        assert(rest@ =~= full.subrange(0, full.len() as int));
    }
    while rest.len() > 0
        invariant
            spec_sorted_releases(out@),
            out@.to_multiset().add(rest@.to_multiset()) == full.to_multiset(),
            rest@.len() <= full.len(),
            rest@ == full.subrange(full.len() - rest@.len(), full.len() as int),
            out@ == spec_sort_releases(full.subrange(0, full.len() - rest@.len())),
        decreases rest@.len(),
    {
        let ghost rest0 = rest@;
        let ghost k0 = full.len() - rest0.len();
        let x = rest.remove(0);
        proof {
            assert(x == rest0[0]);
            assert(rest0[0] == full[k0]);
            assert(rest0.remove(0) =~= rest@);
            assert(rest@ =~= full.subrange(k0 + 1, full.len() as int));
        }
        let mut p = out.len();
        while p > 0 && !release_le(&out[p - 1], &x)
            invariant
                p <= out@.len(),
                forall|k: int| p <= k < out@.len() ==> !spec_release_le(#[trigger] out@[k], x),
            decreases p,
        {
            p -= 1;
        }
        let ghost out0 = out@;
        proof {
            assert forall|k: int| p <= k < out@.len() implies spec_release_le(
                x,
                #[trigger] out@[k],
            ) by {
                lemma_release_le_total(out@[k], x);
            }
        }
        out.insert(p, x);
        proof {
            lemma_insert_at(out0, x, p as int);
            assert(full.subrange(0, k0 + 1).drop_last() =~= full.subrange(0, k0));
            assert(full.subrange(0, k0 + 1).last() == full[k0]);
            assert(out@ =~= spec_sort_releases(full.subrange(0, k0 + 1)));
            lemma_sort_step(out0, rest0, full, p as int, x);
            assert forall|i: int| 0 <= i < out@.len() - 1 implies spec_release_le(
                #[trigger] out@[i],
                out@[i + 1],
            ) by {
                if i + 1 < p {
                    assert(out@[i] == out0[i] && out@[i + 1] == out0[i + 1]);
                } else if i + 1 == p {
                    assert(out@[i] == out0[i] && out@[i + 1] == x);
                } else if i == p {
                    assert(out@[i] == x && out@[i + 1] == out0[i]);
                } else {
                    assert(out@[i] == out0[i - 1] && out@[i + 1] == out0[i]);
                }
            }
        }
    }
    proof {
        lemma_sort_done(out@, rest@, full);
        assert(full.subrange(0, full.len() as int) =~= full);
    }
    out
}

} // verus!
