//! The search driver: which candidates match which pattern, and the search
//! that asks for exactly one candidate per pattern.

use vstd::prelude::*;

use crate::class::{Candidate, CandidateView, ClassRecord, ClassRecordView, JarEntry};
use crate::engine::{check_class, class_matches};
use crate::pat::{ClassPat, ClassPatView};
use crate::result::Error;

verus! {

/// A match as a mathematical value.
pub struct MatchView {
    /// The bytes of the entry that matched.
    pub entry: Seq<u8>,
    /// The index of the pattern that it matched.
    pub pattern: int,
}

/// An entry of the archive together with the pattern that it matched.
#[derive(Debug)]
pub struct Match {
    pub entry: JarEntry,
    pub pattern: usize,
}

impl View for Match {
    type V = MatchView;

    open spec fn view(&self) -> MatchView {
        MatchView { entry: self.entry@, pattern: self.pattern as int }
    }
}

/// The values of a run of class patterns.
pub open spec fn pat_views(pats: Seq<ClassPat>) -> Seq<ClassPatView> {
    pats.map_values(|p: ClassPat| p@)
}

/// The values of a run of candidates.
pub open spec fn candidate_views(candidates: Seq<Candidate>) -> Seq<CandidateView> {
    candidates.map_values(|c: Candidate| c@)
}

/// The values of a run of matches.
pub open spec fn match_views(matches: Seq<Match>) -> Seq<MatchView> {
    matches.map_values(|m: Match| m@)
}

/// The index of the first pattern that a class matches, if it matches one.
pub open spec fn first_match(class: ClassRecordView, pats: Seq<ClassPatView>) -> Option<int>
    decreases pats.len(),
{
    if pats.len() == 0 {
        None
    } else if class_matches(class, pats[0]) {
        Some(0)
    } else {
        match first_match(class, pats.drop_first()) {
            Some(i) => Some(i + 1),
            None => None,
        }
    }
}

/// `first_match` is the least index of a pattern that the class matches,
/// and is `None` where the class matches no pattern.
pub proof fn lemma_first_match(class: ClassRecordView, pats: Seq<ClassPatView>)
    ensures
        match first_match(class, pats) {
            Some(i) => 0 <= i < pats.len() && class_matches(class, pats[i]) && forall|j: int|
                0 <= j < i ==> !class_matches(class, #[trigger] pats[j]),
            None => forall|j: int| 0 <= j < pats.len() ==> !class_matches(class, #[trigger] pats[j]),
        },
    decreases pats.len(),
{
    if pats.len() > 0 && !class_matches(class, pats[0]) {
        let rest = pats.drop_first();
        lemma_first_match(class, rest);
        match first_match(class, rest) {
            Some(i) => {
                assert forall|j: int| 0 <= j < i + 1 implies !class_matches(
                    class,
                    #[trigger] pats[j],
                ) by {
                    if j > 0 {
                        assert(pats[j] == rest[j - 1]);
                    }
                }
            },
            None => {
                assert forall|j: int| 0 <= j < pats.len() implies !class_matches(
                    class,
                    #[trigger] pats[j],
                ) by {
                    if j > 0 {
                        assert(pats[j] == rest[j - 1]);
                    }
                }
            },
        }
    }
}

/// Finds the first pattern that a class matches.
pub fn find_pattern(class: &ClassRecord, pats: &[ClassPat]) -> (r: Option<usize>)
    ensures
        match first_match(class@, pat_views(pats@)) {
            Some(i) => r matches Some(x) && x == i,
            None => r is None,
        },
{
    let mut i: usize = 0;
    while i < pats.len()
        invariant
            i <= pats.len(),
            forall|j: int| 0 <= j < i ==> !class_matches(class@, #[trigger] pat_views(pats@)[j]),
        decreases pats.len() - i,
    {
        if check_class(class, &pats[i]).is_some() {
            proof {
                assert(class_matches(class@, pat_views(pats@)[i as int]));
                lemma_first_match(class@, pat_views(pats@));
            }
            return Some(i);
        }
        i += 1;
    }
    proof {
        lemma_first_match(class@, pat_views(pats@));
    }
    None
}

/// The match that one candidate adds to a search, if it adds one, or the
/// error of a candidate that is no class file.
pub open spec fn match_of(candidate: CandidateView, pats: Seq<ClassPatView>) -> Result<
    Option<MatchView>,
    cafebabe::ParseError,
> {
    match candidate.class {
        Err(e) => Err(e),
        Ok(class) => Ok(
            match first_match(class, pats) {
                Some(pattern) => Some(MatchView { entry: candidate.entry, pattern }),
                None => None,
            },
        ),
    }
}

/// The matches of a search over `candidates`: for each class that matches a
/// pattern, in the order of the candidates, its entry with the first
/// pattern that it matches. Where a candidate is no class file, the error
/// of the first such candidate.
pub open spec fn matches_of(candidates: Seq<CandidateView>, pats: Seq<ClassPatView>) -> Result<
    Seq<MatchView>,
    cafebabe::ParseError,
>
    decreases candidates.len(),
{
    if candidates.len() == 0 {
        Ok(Seq::empty())
    } else {
        match matches_of(candidates.drop_last(), pats) {
            Err(e) => Err(e),
            Ok(front) => match match_of(candidates.last(), pats) {
                Err(e) => Err(e),
                Ok(Some(m)) => Ok(front.push(m)),
                Ok(None) => Ok(front),
            },
        }
    }
}

/// A search that fails on the first candidates fails on all of them, with
/// the same error.
pub proof fn lemma_matches_of_prefix(
    candidates: Seq<CandidateView>,
    pats: Seq<ClassPatView>,
    k: int,
)
    requires
        0 <= k <= candidates.len(),
        matches_of(candidates.take(k), pats) is Err,
    ensures
        matches_of(candidates, pats) == matches_of(candidates.take(k), pats),
    decreases candidates.len(),
{
    if k < candidates.len() {
        assert(candidates.drop_last().take(k) =~= candidates.take(k));
        lemma_matches_of_prefix(candidates.drop_last(), pats, k);
    } else {
        assert(candidates.take(k) =~= candidates);
    }
}

/// What a search must hand back: the matches, or a class error that holds
/// the error of the first candidate that is no class file.
pub open spec fn searched(
    r: Result<Vec<Match>, Error>,
    candidates: Seq<CandidateView>,
    pats: Seq<ClassPatView>,
) -> bool {
    match matches_of(candidates, pats) {
        Ok(matches) => r matches Ok(found) && match_views(found@) == matches,
        Err(e) => r matches Err(Error::ClassError(x)) && x == e,
    }
}

/// Searches the candidates for classes that match one of the patterns.
///
/// Each class is recorded with the first pattern that it matches, so one
/// pattern may come with several entries. The first candidate that is no
/// class file ends the search with its error.
pub fn search_many(candidates: Vec<Candidate>, pats: &[ClassPat]) -> (r: Result<Vec<Match>, Error>)
    ensures
        searched(r, candidate_views(candidates@), pat_views(pats@)),
{
    let ghost all = candidate_views(candidates@);
    let ghost want = pat_views(pats@);
    let mut results: Vec<Match> = Vec::new();
    assert(all.take(0) =~= Seq::empty());
    assert(match_views(results@) =~= Seq::empty());
    for candidate in it: candidates
        invariant
            all == candidate_views(it.seq()),
            want == pat_views(pats@),
            matches_of(all.take(it.index() as int), want) == Ok::<_, cafebabe::ParseError>(
                match_views(results@),
            ),
    {
        let ghost i = it.index() as int;
        let ghost before = match_views(results@);
        proof {
            assert(all.take(i + 1).drop_last() =~= all.take(i));
            assert(all.take(i + 1).last() == candidate@);
        }
        let Candidate { entry, class } = candidate;
        let class = match class {
            Ok(class) => class,
            Err(e) => {
                proof {
                    lemma_matches_of_prefix(all, want, i + 1);
                }
                return Err(Error::ClassError(e));
            },
        };
        match find_pattern(&class, pats) {
            Some(pattern) => {
                results.push(Match { entry, pattern });
                assert(match_views(results@) =~= before.push(
                    MatchView { entry: entry@, pattern: pattern as int },
                ));
            },
            None => {},
        }
    }
    assert(all.take(all.len() as int) =~= all);
    Ok(results)
}

/// The matches that were recorded for the pattern with index `p`, in their
/// order.
pub open spec fn matches_for(matches: Seq<MatchView>, p: int) -> Seq<MatchView> {
    matches.filter(|m: MatchView| m.pattern == p)
}

/// What one more match adds to the matches of a pattern.
pub proof fn lemma_matches_for_push(matches: Seq<MatchView>, m: MatchView, p: int)
    ensures
        matches_for(matches.push(m), p) == if m.pattern == p {
            matches_for(matches, p).push(m)
        } else {
            matches_for(matches, p)
        },
        matches_for(matches, p).len() <= matches.len(),
{
    matches.lemma_filter_push(m, |x: MatchView| x.pattern == p);
    matches.lemma_filter_len(|x: MatchView| x.pattern == p);
}

/// The first pattern from `from` on, and below `n`, that does not come with
/// exactly one match.
pub open spec fn first_fault(matches: Seq<MatchView>, from: int, n: int) -> Option<int>
    decreases n - from,
{
    if from >= n {
        None
    } else if matches_for(matches, from).len() != 1 {
        Some(from)
    } else {
        first_fault(matches, from + 1, n)
    }
}

/// `first_fault` is the least index in its range whose pattern does not
/// come with exactly one match, and is `None` where there is none.
pub proof fn lemma_first_fault(matches: Seq<MatchView>, from: int, n: int)
    ensures
        match first_fault(matches, from, n) {
            Some(p) => from <= p < n && matches_for(matches, p).len() != 1 && forall|q: int|
                from <= q < p ==> (#[trigger] matches_for(matches, q)).len() == 1,
            None => forall|q: int|
                from <= q < n ==> (#[trigger] matches_for(matches, q)).len() == 1,
        },
    decreases n - from,
{
    if from < n && matches_for(matches, from).len() == 1 {
        lemma_first_fault(matches, from + 1, n);
    }
}

/// What choosing one entry per pattern must hand back for `n` patterns.
///
/// Where every pattern comes with exactly one match, the entries of these
/// matches, by the index of their pattern. Else the first pattern that does
/// not is reported: as not found where it has no match, as matched too
/// often where it has several.
pub open spec fn selected(r: Result<Vec<JarEntry>, Error>, matches: Seq<MatchView>, n: int) -> bool {
    match first_fault(matches, 0, n) {
        None => r matches Ok(found) && found.len() == n && forall|p: int|
            0 <= p < n ==> (#[trigger] found[p])@ == matches_for(matches, p)[0].entry,
        Some(p) => if matches_for(matches, p).len() == 0 {
            r matches Err(Error::PatternNotFound(x)) && x == p
        } else {
            r matches Err(Error::TooManyMatches(x)) && x == p
        },
    }
}

/// Whether a slot holds an entry with the given bytes.
spec fn holds(slot: Option<JarEntry>, bytes: Seq<u8>) -> bool {
    slot matches Some(e) && e@ == bytes
}

/// Chooses, from the matches of a search for `n` patterns, the one entry of
/// each pattern.
pub fn select_exact(matches: Vec<Match>, n: usize) -> (r: Result<Vec<JarEntry>, Error>)
    requires
        forall|i: int| 0 <= i < matches.len() ==> (#[trigger] matches[i]).pattern < n,
    ensures
        selected(r, match_views(matches@), n as int),
{
    let ghost all = match_views(matches@);
    let mut slots: Vec<Option<JarEntry>> = Vec::new();
    let mut counts: Vec<usize> = Vec::new();
    while slots.len() < n
        invariant
            slots.len() == counts.len(),
            slots.len() <= n,
            forall|p: int| 0 <= p < counts.len() ==> counts[p] == 0,
        decreases n - slots.len(),
    {
        slots.push(None);
        counts.push(0);
    }
    proof {
        assert(all.take(0) =~= Seq::empty());
        assert forall|p: int| 0 <= p < n implies (#[trigger] matches_for(all.take(0), p)).len()
            == 0 by {
            reveal(Seq::filter);
        }
    }
    let total = matches.len();
    for m in it: matches
        invariant
            all == match_views(it.seq()),
            it.seq().len() == total,
            forall|i: int| 0 <= i < it.seq().len() ==> (#[trigger] it.seq()[i]).pattern < n,
            slots.len() == n,
            counts.len() == n,
            forall|p: int|
                0 <= p < n ==> counts[p] == (#[trigger] matches_for(
                    all.take(it.index() as int),
                    p,
                )).len(),
            forall|p: int|
                0 <= p < n && counts[p] > 0 ==> holds(
                    #[trigger] slots[p],
                    matches_for(all.take(it.index() as int), p)[0].entry,
                ),
    {
        let ghost i = it.index() as int;
        let ghost mv = m@;
        let ghost prev = all.take(i);
        let Match { entry, pattern } = m;
        proof {
            assert(all[i] == mv);
            assert(all.take(i + 1) =~= prev.push(mv));
            assert forall|p: int| 0 <= p < n implies #[trigger] matches_for(all.take(i + 1), p)
                == (if p == pattern {
                matches_for(prev, p).push(mv)
            } else {
                matches_for(prev, p)
            }) by {
                lemma_matches_for_push(prev, mv, p);
            }
            lemma_matches_for_push(prev, mv, pattern as int);
            assert(matches_for(prev, pattern as int).len() <= i < total);
        }
        let seen = counts[pattern];
        if seen == 0 {
            slots.set(pattern, Some(entry));
        }
        counts.set(pattern, seen + 1);
    }
    assert(all.take(all.len() as int) =~= all);
    let mut p: usize = 0;
    while p < n
        invariant
            p <= n,
            slots.len() == n,
            counts.len() == n,
            forall|q: int| 0 <= q < n ==> counts[q] == (#[trigger] matches_for(all, q)).len(),
            forall|q: int|
                0 <= q < n && counts[q] > 0 ==> holds(
                    #[trigger] slots[q],
                    matches_for(all, q)[0].entry,
                ),
            forall|q: int| 0 <= q < p ==> counts[q] == 1,
            all == match_views(matches@),
            first_fault(all, 0, n as int) == first_fault(all, p as int, n as int),
        decreases n - p,
    {
        assert(counts[p as int] == matches_for(all, p as int).len());
        if counts[p] == 0 {
            return Err(Error::PatternNotFound(p));
        }
        if counts[p] > 1 {
            return Err(Error::TooManyMatches(p));
        }
        p += 1;
    }
    let mut reversed: Vec<JarEntry> = Vec::new();
    while slots.len() > 0
        invariant
            slots.len() + reversed.len() == n,
            forall|q: int|
                0 <= q < slots.len() ==> holds(#[trigger] slots[q], matches_for(all, q)[0].entry),
            forall|j: int|
                0 <= j < reversed.len() ==> (#[trigger] reversed[j])@ == matches_for(
                    all,
                    n - 1 - j,
                )[0].entry,
        decreases slots.len(),
    {
        let slot = slots.pop().unwrap();
        reversed.push(slot.unwrap());
    }
    let mut found: Vec<JarEntry> = Vec::new();
    while reversed.len() > 0
        invariant
            found.len() + reversed.len() == n,
            forall|j: int|
                0 <= j < reversed.len() ==> (#[trigger] reversed[j])@ == matches_for(
                    all,
                    n - 1 - j,
                )[0].entry,
            forall|q: int|
                0 <= q < found.len() ==> (#[trigger] found[q])@ == matches_for(all, q)[0].entry,
        decreases reversed.len(),
    {
        found.push(reversed.pop().unwrap());
    }
    Ok(found)
}

/// The class of a candidate that is a class file.
pub open spec fn class_of(candidate: CandidateView) -> ClassRecordView {
    candidate.class->Ok_0
}

/// How a search over the first `k + 1` candidates follows from the search
/// over the first `k` and from candidate `k`.
pub proof fn lemma_matches_of_step(candidates: Seq<CandidateView>, pats: Seq<ClassPatView>, k: int)
    requires
        0 <= k < candidates.len(),
    ensures
        matches_of(candidates.take(k + 1), pats) == match matches_of(candidates.take(k), pats) {
            Err(e) => Err(e),
            Ok(front) => match match_of(candidates[k], pats) {
                Err(e) => Err(e),
                Ok(Some(m)) => Ok(front.push(m)),
                Ok(None) => Ok(front),
            },
        },
{
    assert(candidates.take(k + 1).drop_last() =~= candidates.take(k));
    assert(candidates.take(k + 1).last() == candidates[k]);
}

/// Every match of a search stands for a candidate of the search that is a
/// class file and has the recorded pattern as the first that it matches.
pub proof fn lemma_matches_of_sound(candidates: Seq<CandidateView>, pats: Seq<ClassPatView>)
    ensures
        matches_of(candidates, pats) matches Ok(matches) ==> forall|i: int|
            0 <= i < matches.len() ==> exists|j: int|
                0 <= j < candidates.len() && match_of(#[trigger] candidates[j], pats) == Ok::<
                    _,
                    cafebabe::ParseError,
                >(Some(#[trigger] matches[i])),
    decreases candidates.len(),
{
    if candidates.len() > 0 {
        let front = candidates.drop_last();
        lemma_matches_of_sound(front, pats);
        if let Ok(matches) = matches_of(candidates, pats) {
            let before = matches_of(front, pats)->Ok_0;
            assert forall|i: int| 0 <= i < matches.len() implies exists|j: int|
                0 <= j < candidates.len() && match_of(#[trigger] candidates[j], pats) == Ok::<
                    _,
                    cafebabe::ParseError,
                >(Some(#[trigger] matches[i])) by {
                if i < before.len() {
                    assert(matches[i] == before[i]);
                    let j = choose|j: int|
                        0 <= j < front.len() && match_of(#[trigger] front[j], pats) == Ok::<
                            _,
                            cafebabe::ParseError,
                        >(Some(before[i]));
                    assert(candidates[j] == front[j]);
                } else {
                    assert(match_of(candidates[candidates.len() - 1], pats) == Ok::<
                        _,
                        cafebabe::ParseError,
                    >(Some(matches[i])));
                }
            }
        }
    }
}

/// Every match of a search names a pattern of the search, and holds the
/// entry of a candidate whose class matches that pattern.
pub proof fn lemma_matches_in_range(candidates: Seq<CandidateView>, pats: Seq<ClassPatView>)
    ensures
        matches_of(candidates, pats) matches Ok(matches) ==> forall|i: int|
            0 <= i < matches.len() ==> 0 <= (#[trigger] matches[i]).pattern < pats.len()
                && exists|j: int|
                0 <= j < candidates.len() && (#[trigger] candidates[j]).class is Ok
                    && candidates[j].entry == matches[i].entry && class_matches(
                    class_of(candidates[j]),
                    pats[matches[i].pattern],
                ),
{
    lemma_matches_of_sound(candidates, pats);
    if let Ok(matches) = matches_of(candidates, pats) {
        assert forall|i: int| 0 <= i < matches.len() implies 0 <= (
        #[trigger] matches[i]).pattern < pats.len() && exists|j: int|
            0 <= j < candidates.len() && (#[trigger] candidates[j]).class is Ok
                && candidates[j].entry == matches[i].entry && class_matches(
                class_of(candidates[j]),
                pats[matches[i].pattern],
            ) by {
            let j = choose|j: int|
                0 <= j < candidates.len() && match_of(#[trigger] candidates[j], pats) == Ok::<
                    _,
                    cafebabe::ParseError,
                >(Some(matches[i]));
            lemma_first_match(class_of(candidates[j]), pats);
        }
    }
}

/// What a search for exactly one entry per pattern must hand back.
///
/// A candidate that is no class file makes the search fail with a class
/// error that holds the error of the first such candidate. Else each class
/// counts for the first pattern that it matches, and the result is chosen
/// from these matches as `selected` says.
pub open spec fn searched_exact(
    r: Result<Vec<JarEntry>, Error>,
    candidates: Seq<CandidateView>,
    pats: Seq<ClassPatView>,
) -> bool {
    match matches_of(candidates, pats) {
        Ok(matches) => selected(r, matches, pats.len() as int),
        Err(e) => r matches Err(Error::ClassError(x)) && x == e,
    }
}

/// Searches the candidates for the classes that match the patterns, exactly
/// one for each pattern.
///
/// On success the result holds one entry for each pattern, at the index of
/// the pattern.
pub fn search_exact(candidates: Vec<Candidate>, pats: &[ClassPat]) -> (r: Result<
    Vec<JarEntry>,
    Error,
>)
    ensures
        searched_exact(r, candidate_views(candidates@), pat_views(pats@)),
{
    let matches = match search_many(candidates, pats) {
        Ok(matches) => matches,
        Err(e) => {
            return Err(e);
        },
    };
    proof {
        lemma_matches_in_range(candidate_views(candidates@), pat_views(pats@));
        assert forall|i: int| 0 <= i < matches.len() implies (#[trigger] matches[i]).pattern
            < pats.len() by {
            assert(match_views(matches@)[i].pattern == matches[i].pattern);
        }
    }
    select_exact(matches, pats.len())
}

} // verus!
