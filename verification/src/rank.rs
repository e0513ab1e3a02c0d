//! The filter-and-rank engine: projects the candidate list to the sequence
//! of indices shown for the current query, best matches first.

use vstd::prelude::*;

use crate::matching::{fuzzy_score, lower_of, lowercase, matches_query, rank_score, score_of};

verus! {

/// One matched candidate while ranking: its position in the candidate list
/// and the score the fuzzy scorer gave it.
#[derive(Clone, Copy)]
struct Ranked {
    idx: usize,
    score: i64,
}

/// What it means for `shown` to be the display projection of `cands` under
/// query `q`: every entry is a valid, matching candidate index, every
/// matching candidate appears, scores are non-increasing, and candidates
/// with equal scores keep their original relative order.
pub open spec fn projection_ok(cands: Seq<String>, q: Seq<char>, shown: Seq<usize>) -> bool {
    &&& forall|k: int| 0 <= k < shown.len() ==> (#[trigger] shown[k]) < cands.len()
    &&& forall|k: int|
        0 <= k < shown.len() ==> matches_query(cands[#[trigger] shown[k] as int]@, q)
    &&& forall|i: usize|
        i < cands.len() && matches_query(cands[i as int]@, q) ==> #[trigger] shown.contains(i)
    &&& forall|a: int, b: int|
        0 <= a < b < shown.len() ==> rank_score(cands[#[trigger] shown[b] as int]@, q)
            <= rank_score(cands[#[trigger] shown[a] as int]@, q)
    &&& forall|a: int, b: int|
        0 <= a < b < shown.len() && rank_score(cands[#[trigger] shown[a] as int]@, q)
            == rank_score(cands[#[trigger] shown[b] as int]@, q) ==> shown[a] < shown[b]
}

/// Scores are non-increasing along `ranked`.
spec fn sorted_desc(r: Seq<Ranked>) -> bool {
    forall|a: int, b: int|
        0 <= a < b < r.len() ==> (#[trigger] r[b]).score <= (#[trigger] r[a]).score
}

/// Entries with equal scores stay in candidate order.
spec fn stable_ties(r: Seq<Ranked>) -> bool {
    forall|a: int, b: int|
        0 <= a < b < r.len() && (#[trigger] r[a]).score == (#[trigger] r[b]).score ==> r[a].idx
            < r[b].idx
}

/// Every entry records the scorer's result for its candidate.
spec fn scores_ok(r: Seq<Ranked>, cands: Seq<String>, q: Seq<char>) -> bool {
    forall|k: int|
        0 <= k < r.len() ==> (#[trigger] r[k]).idx < cands.len() && score_of(
            lower_of(cands[r[k].idx as int]@),
            lower_of(q),
        ) == Some(r[k].score)
}

/// Some entry of `r` carries candidate index `i`.
spec fn contains_idx(r: Seq<Ranked>, i: usize) -> bool {
    exists|k: int| 0 <= k < r.len() && (#[trigger] r[k]).idx == i
}

/// All entries come from the first `m` candidates.
spec fn idx_below(r: Seq<Ranked>, m: int) -> bool {
    forall|k: int| 0 <= k < r.len() ==> (#[trigger] r[k]).idx < m
}

/// The first `m` candidates are ranked if and only if they match.
spec fn complete_upto(r: Seq<Ranked>, cands: Seq<String>, q: Seq<char>, m: int) -> bool {
    forall|c: usize| c < m && matches_query(cands[c as int]@, q) ==> #[trigger] contains_idx(r, c)
}

/// Computes the display projection for the current query: the indices of
/// the matching candidates, ordered by descending score, with the original
/// order as the tie-break. An empty query keeps every candidate in place.
pub fn project(cands: &Vec<String>, query: &String) -> (shown: Vec<usize>)
    ensures
        projection_ok(cands@, query@, shown@),
        shown@.len() <= cands@.len(),
        query@.len() == 0 ==> shown@ == Seq::new(cands@.len() as nat, |i: int| i as usize),
{
    let n = cands.len();
    if query.as_str().is_empty() {
        let mut shown: Vec<usize> = Vec::new();
        let mut i: usize = 0;
        while i < n
            invariant
                i <= n == cands@.len(),
                query@.len() == 0,
                shown@.len() == i,
                forall|k: int| 0 <= k < i ==> #[trigger] shown@[k] == k as usize,
            decreases n - i,
        {
            shown.push(i);
            i += 1;
        }
        proof {
            assert(shown@ =~= Seq::new(cands@.len() as nat, |i: int| i as usize));
            assert forall|i: usize| i < cands@.len() implies #[trigger] shown@.contains(i) by {
                assert(shown@[i as int] == i);
            }
        }
        shown
    } else {
        let ql = lowercase(query.as_str());
        let mut ranked: Vec<Ranked> = Vec::new();
        let mut i: usize = 0;
        while i < n
            invariant
                i <= n == cands@.len(),
                query@.len() > 0,
                ql@ == lower_of(query@),
                ranked@.len() <= i,
                sorted_desc(ranked@),
                stable_ties(ranked@),
                scores_ok(ranked@, cands@, query@),
                idx_below(ranked@, i as int),
                complete_upto(ranked@, cands@, query@, i as int),
            decreases n - i,
        {
            let ghost old_ranked = ranked@;
            let cl = lowercase(cands[i].as_str());
            match fuzzy_score(cl.as_str(), ql.as_str()) {
                Some(s) => {
                    let mut pos: usize = ranked.len();
                    while pos > 0 && ranked[pos - 1].score < s
                        invariant
                            pos <= ranked@.len(),
                            sorted_desc(ranked@),
                            forall|t: int|
                                pos <= t < ranked@.len() ==> (#[trigger] ranked@[t]).score < s,
                        decreases pos,
                    {
                        pos -= 1;
                    }
                    proof {
                        assert forall|t: int| 0 <= t < pos implies s
                            <= (#[trigger] ranked@[t]).score by {
                            assert(ranked@[pos - 1].score <= ranked@[t].score);
                        }
                    }
                    let entry = Ranked { idx: i, score: s };
                    ranked.insert(pos, entry);
                    proof {
                        let r2 = ranked@;
                        assert forall|a: int, b: int| 0 <= a < b < r2.len() implies (#[trigger] r2[b]).score
                            <= (#[trigger] r2[a]).score by {
                            if a < pos {
                                assert(r2[a] == old_ranked[a]);
                            }
                            if b < pos {
                                assert(r2[b] == old_ranked[b]);
                            }
                            if a > pos {
                                assert(r2[a] == old_ranked[a - 1]);
                            }
                            if b > pos {
                                assert(r2[b] == old_ranked[b - 1]);
                            }
                        }
                        assert forall|a: int, b: int|
                            0 <= a < b < r2.len() && (#[trigger] r2[a]).score
                                == (#[trigger] r2[b]).score implies r2[a].idx < r2[b].idx by {
                            if a < pos {
                                assert(r2[a] == old_ranked[a]);
                            }
                            if b < pos {
                                assert(r2[b] == old_ranked[b]);
                            }
                            if a > pos {
                                assert(r2[a] == old_ranked[a - 1]);
                            }
                            if b > pos {
                                assert(r2[b] == old_ranked[b - 1]);
                            }
                        }
                        assert(scores_ok(r2, cands@, query@)) by {
                            assert forall|k: int| 0 <= k < r2.len() implies (#[trigger] r2[k]).idx
                                < cands@.len() && score_of(
                                lower_of(cands@[r2[k].idx as int]@),
                                lower_of(query@),
                            ) == Some(r2[k].score) by {
                                if k < pos {
                                    assert(r2[k] == old_ranked[k]);
                                } else if k > pos {
                                    assert(r2[k] == old_ranked[k - 1]);
                                } else {
                                    assert(r2[k] == entry);
                                }
                            }
                        }
                        assert(complete_upto(r2, cands@, query@, i + 1)) by {
                            assert forall|c: usize|
                                c < i + 1 && matches_query(
                                    cands@[c as int]@,
                                    query@,
                                ) implies #[trigger] contains_idx(r2, c) by {
                                if c < i {
                                    assert(contains_idx(old_ranked, c));
                                    let k = choose|k: int|
                                        0 <= k < old_ranked.len() && (#[trigger] old_ranked[k]).idx
                                            == c;
                                    if k < pos {
                                        assert(r2[k].idx == c);
                                    } else {
                                        assert(r2[k + 1].idx == c);
                                    }
                                } else {
                                    assert(r2[pos as int].idx == c);
                                }
                            }
                        }
                        assert(idx_below(r2, i + 1)) by {
                            assert forall|k: int| 0 <= k < r2.len() implies (#[trigger] r2[k]).idx
                                < i + 1 by {
                                if k < pos {
                                    assert(r2[k] == old_ranked[k]);
                                } else if k > pos {
                                    assert(r2[k] == old_ranked[k - 1]);
                                }
                            }
                        }
                    }
                },
                None => {},
            }
            i += 1;
        }
        let m = ranked.len();
        let mut shown: Vec<usize> = Vec::new();
        let mut k: usize = 0;
        while k < m
            invariant
                k <= m == ranked@.len(),
                shown@.len() == k,
                forall|t: int| 0 <= t < k ==> #[trigger] shown@[t] == ranked@[t].idx,
            decreases m - k,
        {
            shown.push(ranked[k].idx);
            k += 1;
        }
        proof {
            let r = ranked@;
            let q = query@;
            assert forall|i2: usize|
                i2 < cands@.len() && matches_query(cands@[i2 as int]@, q) implies #[trigger] shown@
                .contains(i2) by {
                assert(contains_idx(r, i2));
                let t = choose|t: int| 0 <= t < r.len() && (#[trigger] r[t]).idx == i2;
                assert(shown@[t] == i2);
            }
            assert forall|a: int, b: int| 0 <= a < b < shown@.len() implies rank_score(
                cands@[#[trigger] shown@[b] as int]@,
                q,
            ) <= rank_score(cands@[#[trigger] shown@[a] as int]@, q) by {
                assert(r[b].score <= r[a].score);
            }
            assert forall|a: int, b: int|
                0 <= a < b < shown@.len() && rank_score(cands@[#[trigger] shown@[a] as int]@, q)
                    == rank_score(cands@[#[trigger] shown@[b] as int]@, q) implies shown@[a]
                < shown@[b] by {
                assert(r[a].score == r[b].score);
            }
        }
        shown
    }
}

/// Every row of the display projection is a matching candidate: the query
/// is empty, or the scorer returns a score for the lowercased pair.
pub proof fn lemma_projection_rows_match(cands: Seq<String>, q: Seq<char>, shown: Seq<usize>)
    requires
        projection_ok(cands, q, shown),
    ensures
        forall|k: int|
            0 <= k < shown.len() ==> (#[trigger] shown[k]) < cands.len() && matches_query(
                cands[shown[k] as int]@,
                q,
            ),
{
}

/// The display projection is sorted by non-increasing score, and rows with
/// equal scores keep the original candidate order.
pub proof fn lemma_projection_ranked(cands: Seq<String>, q: Seq<char>, shown: Seq<usize>)
    requires
        projection_ok(cands, q, shown),
    ensures
        forall|a: int, b: int|
            0 <= a < b < shown.len() ==> rank_score(cands[#[trigger] shown[b] as int]@, q)
                <= rank_score(cands[#[trigger] shown[a] as int]@, q),
        forall|a: int, b: int|
            0 <= a < b < shown.len() && rank_score(cands[#[trigger] shown[a] as int]@, q)
                == rank_score(cands[#[trigger] shown[b] as int]@, q) ==> shown[a] < shown[b],
{
}

} // verus!
