//! What the search for exactly one entry per pattern returns on the inputs
//! that it is meant for, and which pattern it reports on the others.

use vstd::prelude::*;

use crate::class::{CandidateView, JarEntry};
use crate::engine::class_matches;
use crate::pat::ClassPatView;
use crate::result::Error;
use crate::search::{
    class_of, first_match, lemma_first_fault, lemma_first_match, lemma_matches_for_push,
    lemma_matches_in_range, lemma_matches_of_step, matches_for, matches_of, searched_exact,
    MatchView,
};

verus! {

/// The matches that a search records for the pattern with index `p`.
pub open spec fn recorded(candidates: Seq<CandidateView>, pats: Seq<ClassPatView>, p: int) -> Seq<
    MatchView,
> {
    matches_for(matches_of(candidates, pats)->Ok_0, p)
}

/// Whether every candidate is a class file.
pub open spec fn all_decode(candidates: Seq<CandidateView>) -> bool {
    forall|i: int| 0 <= i < candidates.len() ==> (#[trigger] candidates[i]).class is Ok
}

/// A search over class files alone finds its matches.
pub proof fn lemma_search_succeeds(candidates: Seq<CandidateView>, pats: Seq<ClassPatView>)
    requires
        all_decode(candidates),
    ensures
        matches_of(candidates, pats) is Ok,
    decreases candidates.len(),
{
    if candidates.len() > 0 {
        let front = candidates.drop_last();
        assert forall|i: int| 0 <= i < front.len() implies (#[trigger] front[i]).class is Ok by {
            assert(front[i] == candidates[i]);
        }
        lemma_search_succeeds(front, pats);
        assert(candidates[candidates.len() - 1].class is Ok);
    }
}

/// What candidate `k` adds to the matches that are recorded for pattern `p`.
proof fn lemma_recorded_step(candidates: Seq<CandidateView>, pats: Seq<ClassPatView>, p: int, k: int)
    requires
        all_decode(candidates),
        0 <= k < candidates.len(),
    ensures
        recorded(candidates.take(k + 1), pats, p) == if first_match(class_of(candidates[k]), pats)
            == Some(p) {
            recorded(candidates.take(k), pats, p).push(
                MatchView { entry: candidates[k].entry, pattern: p },
            )
        } else {
            recorded(candidates.take(k), pats, p)
        },
{
    assert(all_decode(candidates.take(k))) by {
        assert forall|i: int| 0 <= i < k implies (#[trigger] candidates.take(k)[i]).class is Ok by {
            assert(candidates.take(k)[i] == candidates[i]);
        }
    }
    lemma_search_succeeds(candidates.take(k), pats);
    lemma_matches_of_step(candidates, pats, k);
    assert(candidates[k].class is Ok);
    let before = matches_of(candidates.take(k), pats)->Ok_0;
    match first_match(class_of(candidates[k]), pats) {
        Some(q) => {
            lemma_matches_for_push(before, MatchView { entry: candidates[k].entry, pattern: q }, p);
        },
        None => {},
    }
}

/// The matches that are recorded for a pattern only grow with the
/// candidates.
proof fn lemma_recorded_grows(
    candidates: Seq<CandidateView>,
    pats: Seq<ClassPatView>,
    p: int,
    from: int,
    to: int,
)
    requires
        all_decode(candidates),
        0 <= from <= to <= candidates.len(),
    ensures
        recorded(candidates.take(from), pats, p).len() <= recorded(candidates.take(to), pats, p).len(),
    decreases to - from,
{
    if from < to {
        lemma_recorded_grows(candidates, pats, p, from, to - 1);
        lemma_recorded_step(candidates, pats, p, to - 1);
    }
}

/// Where each pattern is matched by the candidate at its place in `at` and
/// by no other, the matches recorded among the first `k` candidates are
/// those of the patterns whose candidate is among them.
proof fn lemma_one_each_upto(
    candidates: Seq<CandidateView>,
    pats: Seq<ClassPatView>,
    at: Seq<int>,
    k: int,
)
    requires
        all_decode(candidates),
        at.len() == pats.len(),
        forall|p: int| 0 <= p < pats.len() ==> 0 <= #[trigger] at[p] < candidates.len(),
        forall|p: int, q: int| 0 <= p < q < pats.len() ==> #[trigger] at[p] != #[trigger] at[q],
        forall|p: int, i: int|
            0 <= p < pats.len() && 0 <= i < candidates.len() ==> (class_matches(
                class_of(#[trigger] candidates[i]),
                #[trigger] pats[p],
            ) <==> i == at[p]),
        0 <= k <= candidates.len(),
    ensures
        forall|p: int|
            0 <= p < pats.len() ==> #[trigger] recorded(candidates.take(k), pats, p) == if at[p] < k {
                seq![MatchView { entry: candidates[at[p]].entry, pattern: p }]
            } else {
                Seq::empty()
            },
    decreases k,
{
    if k == 0 {
        assert(candidates.take(0) =~= Seq::empty());
        assert forall|p: int| 0 <= p < pats.len() implies #[trigger] recorded(
            candidates.take(0),
            pats,
            p,
        ) == Seq::<MatchView>::empty() by {
            reveal(Seq::filter);
        }
    } else {
        lemma_one_each_upto(candidates, pats, at, k - 1);
        let class = class_of(candidates[k - 1]);
        lemma_first_match(class, pats);
        assert forall|p: int| 0 <= p < pats.len() implies #[trigger] recorded(
            candidates.take(k),
            pats,
            p,
        ) == if at[p] < k {
            seq![MatchView { entry: candidates[at[p]].entry, pattern: p }]
        } else {
            Seq::empty()
        } by {
            lemma_recorded_step(candidates, pats, p, k - 1);
            let before = recorded(candidates.take(k - 1), pats, p);
            if at[p] == k - 1 {
                assert(class_matches(class, pats[p]));
                let first = first_match(class, pats)->0;
                assert(class_matches(class, pats[first]));
                assert(first == p);
                assert(before.push(MatchView { entry: candidates[k - 1].entry, pattern: p })
                    =~= seq![MatchView { entry: candidates[at[p]].entry, pattern: p }]);
            } else if first_match(class, pats) == Some(p) {
                assert(class_matches(class, pats[p]));
            }
        }
    }
}

/// Where each pattern is matched by exactly one candidate, and no two
/// patterns by the same candidate, the search returns for each pattern, at
/// its index, the entry of the candidate that matches it.
///
/// `at[p]` is the position, among the candidates, of the one that matches
/// pattern `p`.
pub proof fn lemma_one_class_per_pattern(
    r: Result<Vec<JarEntry>, Error>,
    candidates: Seq<CandidateView>,
    pats: Seq<ClassPatView>,
    at: Seq<int>,
)
    requires
        searched_exact(r, candidates, pats),
        all_decode(candidates),
        at.len() == pats.len(),
        forall|p: int| 0 <= p < pats.len() ==> 0 <= #[trigger] at[p] < candidates.len(),
        forall|p: int, q: int| 0 <= p < q < pats.len() ==> #[trigger] at[p] != #[trigger] at[q],
        forall|p: int, i: int|
            0 <= p < pats.len() && 0 <= i < candidates.len() ==> (class_matches(
                class_of(#[trigger] candidates[i]),
                #[trigger] pats[p],
            ) <==> i == at[p]),
    ensures
        r matches Ok(found) && found.len() == pats.len() && forall|p: int|
            0 <= p < pats.len() ==> (#[trigger] found[p])@ == candidates[at[p]].entry,
{
    lemma_search_succeeds(candidates, pats);
    lemma_one_each_upto(candidates, pats, at, candidates.len() as int);
    assert(candidates.take(candidates.len() as int) =~= candidates);
    let matches = matches_of(candidates, pats)->Ok_0;
    lemma_first_fault(matches, 0, pats.len() as int);
    assert forall|p: int| 0 <= p < pats.len() implies (#[trigger] matches_for(matches, p)).len()
        == 1 && matches_for(matches, p)[0].entry == candidates[at[p]].entry by {
        assert(recorded(candidates, pats, p) == matches_for(matches, p));
    }
}

/// A pattern that no candidate matches is reported as not found, where every
/// pattern before it comes with exactly one match.
pub proof fn lemma_unmatched_pattern_not_found(
    r: Result<Vec<JarEntry>, Error>,
    candidates: Seq<CandidateView>,
    pats: Seq<ClassPatView>,
    p: int,
)
    requires
        searched_exact(r, candidates, pats),
        all_decode(candidates),
        0 <= p < pats.len(),
        forall|i: int|
            0 <= i < candidates.len() ==> !class_matches(class_of(#[trigger] candidates[i]), pats[p]),
        forall|q: int| 0 <= q < p ==> (#[trigger] recorded(candidates, pats, q)).len() == 1,
    ensures
        r matches Err(Error::PatternNotFound(x)) && x == p,
{
    lemma_search_succeeds(candidates, pats);
    let matches = matches_of(candidates, pats)->Ok_0;
    lemma_matches_in_range(candidates, pats);
    let pred = |m: MatchView| m.pattern == p;
    assert forall|i: int| 0 <= i < matches.len() implies !pred(#[trigger] matches[i]) by {
        let j = choose|j: int|
            0 <= j < candidates.len() && (#[trigger] candidates[j]).class is Ok
                && candidates[j].entry == matches[i].entry && class_matches(
                class_of(candidates[j]),
                pats[matches[i].pattern],
            );
        assert(!class_matches(class_of(candidates[j]), pats[p]));
    }
    matches.lemma_all_neg_filter_empty(pred);
    assert(matches_for(matches, p).len() == 0);
    lemma_first_fault(matches, 0, pats.len() as int);
    assert forall|q: int| 0 <= q < p implies (#[trigger] matches_for(matches, q)).len() == 1 by {
        assert(recorded(candidates, pats, q) == matches_for(matches, q));
    }
}

/// A pattern that is the first match of two candidates is reported as matched
/// too often, where every pattern before it comes with exactly one match.
pub proof fn lemma_pattern_matched_twice(
    r: Result<Vec<JarEntry>, Error>,
    candidates: Seq<CandidateView>,
    pats: Seq<ClassPatView>,
    p: int,
    i: int,
    j: int,
)
    requires
        searched_exact(r, candidates, pats),
        all_decode(candidates),
        0 <= p < pats.len(),
        0 <= i < j < candidates.len(),
        first_match(class_of(candidates[i]), pats) == Some(p),
        first_match(class_of(candidates[j]), pats) == Some(p),
        forall|q: int| 0 <= q < p ==> (#[trigger] recorded(candidates, pats, q)).len() == 1,
    ensures
        r matches Err(Error::TooManyMatches(x)) && x == p,
{
    lemma_search_succeeds(candidates, pats);
    let matches = matches_of(candidates, pats)->Ok_0;
    lemma_recorded_step(candidates, pats, p, i);
    lemma_recorded_grows(candidates, pats, p, i + 1, j);
    lemma_recorded_step(candidates, pats, p, j);
    lemma_recorded_grows(candidates, pats, p, j + 1, candidates.len() as int);
    assert(candidates.take(candidates.len() as int) =~= candidates);
    assert(matches_for(matches, p).len() >= 2);
    lemma_first_fault(matches, 0, pats.len() as int);
    assert forall|q: int| 0 <= q < p implies (#[trigger] matches_for(matches, q)).len() == 1 by {
        assert(recorded(candidates, pats, q) == matches_for(matches, q));
    }
}

} // verus!
