use vstd::prelude::*;

verus! {

/// The score of a matching entry; entries that did not match count as zero.
pub open spec fn score_of(scores: Seq<Option<i32>>, i: int) -> i32 {
    match scores[i] {
        Some(s) => s,
        None => 0,
    }
}

/// Whether the entry at index `a` ranks ahead of the one at index `b`:
/// the higher score first, equal scores in the order of the entries.
pub open spec fn ranks_ahead(scores: Seq<Option<i32>>, a: int, b: int) -> bool {
    ||| score_of(scores, a) > score_of(scores, b)
    ||| score_of(scores, a) == score_of(scores, b) && a < b
}

/// `r` holds the indices below `k` of the matching entries, each once, best ranked first.
pub open spec fn is_ranking_below(scores: Seq<Option<i32>>, r: Seq<usize>, k: int) -> bool {
    &&& forall|i: int| 0 <= i < r.len() ==> #[trigger] r[i] < k && r[i] < scores.len() && scores[r[i] as int] is Some
    &&& forall|j: usize| j < k && j < scores.len() && #[trigger] scores[j as int] is Some ==> r.contains(j)
    &&& forall|i: int, j: int| 0 <= i < j < r.len() ==> ranks_ahead(scores, #[trigger] r[i] as int, #[trigger] r[j] as int)
}

/// `r` holds the indices of all matching entries, each once, best ranked first.
pub open spec fn is_ranking(scores: Seq<Option<i32>>, r: Seq<usize>) -> bool {
    is_ranking_below(scores, r, scores.len() as int)
}

/// The score of the matching entry at `i`.
fn match_score(scores: &Vec<Option<i32>>, i: usize) -> (s: i32)
    requires
        i < scores.len(),
        scores@[i as int] is Some,
    ensures
        s == score_of(scores@, i as int),
{
    match scores[i] {
        Some(s) => s,
        None => 0,
    }
}

/// The indices of the entries that matched (those with a score), the highest score first;
/// entries with equal scores keep their order.
pub fn rank_matches(scores: &Vec<Option<i32>>) -> (r: Vec<usize>)
    ensures
        is_ranking(scores@, r@),
{
    let mut r: Vec<usize> = Vec::new();
    let mut k: usize = 0;
    while k < scores.len()
        invariant
            k <= scores.len(),
            is_ranking_below(scores@, r@, k as int),
        decreases scores.len() - k,
    {
        if let Some(s) = scores[k] {
            let mut p: usize = 0;
            while p < r.len() && match_score(scores, r[p]) >= s
                invariant
                    p <= r.len(),
                    k < scores.len(),
                    scores@[k as int] == Some(s),
                    is_ranking_below(scores@, r@, k as int),
                    forall|i: int| 0 <= i < p ==> score_of(scores@, #[trigger] r@[i] as int) >= s,
                decreases r.len() - p,
            {
                p = p + 1;
            }
            let ghost old_r = r@;
            proof {
                old_r.insert_ensures(p as int, k);
                assert forall|i: int| p <= i < old_r.len() implies score_of(scores@, #[trigger] old_r[i] as int) < s by {
                    if i > p {
                        assert(ranks_ahead(scores@, old_r[p as int] as int, old_r[i] as int));
                    }
                }
            }
            r.insert(p, k);
            proof {
                let nr = r@;
                assert(nr == old_r.insert(p as int, k));
                assert forall|i: int| 0 <= i < nr.len() implies #[trigger] nr[i] < k + 1 && nr[i] < scores.len()
                    && scores@[nr[i] as int] is Some by {
                    if i > p {
                        assert(nr[i] == old_r[i - 1]);
                    }
                }
                assert forall|j: usize| j < k + 1 && j < scores.len() && #[trigger] scores@[j as int] is Some implies nr.contains(
                    j,
                ) by {
                    if j == k {
                        assert(nr[p as int] == k);
                    } else {
                        let w = choose|w: int| 0 <= w < old_r.len() && old_r[w] == j;
                        if w < p {
                            assert(nr[w] == j);
                        } else {
                            assert(nr[w + 1] == j);
                        }
                    }
                }
                assert forall|i: int, j: int| 0 <= i < j < nr.len() implies ranks_ahead(
                    scores@,
                    #[trigger] nr[i] as int,
                    #[trigger] nr[j] as int,
                ) by {
                    if j < p {
                    } else if j == p {
                        assert(nr[i] == old_r[i]);
                    } else if i < p {
                        assert(nr[j] == old_r[j - 1]);
                        assert(nr[i] == old_r[i]);
                    } else if i == p {
                        assert(nr[j] == old_r[j - 1]);
                    } else {
                        assert(nr[j] == old_r[j - 1]);
                        assert(nr[i] == old_r[i - 1]);
                        assert(ranks_ahead(scores@, old_r[i - 1] as int, old_r[j - 1] as int));
                    }
                }
            }
        } else {
            proof {
                assert forall|j: usize| j < k + 1 && j < scores.len() && #[trigger] scores@[j as int] is Some implies r@.contains(
                    j,
                ) by {
                    if j < k {
                    }
                }
            }
        }
        k = k + 1;
    }
    r
}

/// Two sequences ordered strictly by rank that hold the same indices are the same.
proof fn lemma_ranked_same_elements(scores: Seq<Option<i32>>, r1: Seq<usize>, r2: Seq<usize>)
    requires
        forall|x: usize| r1.contains(x) <==> r2.contains(x),
        forall|i: int, j: int| 0 <= i < j < r1.len() ==> ranks_ahead(scores, #[trigger] r1[i] as int, #[trigger] r1[j] as int),
        forall|i: int, j: int| 0 <= i < j < r2.len() ==> ranks_ahead(scores, #[trigger] r2[i] as int, #[trigger] r2[j] as int),
    ensures
        r1 == r2,
    decreases r1.len(),
{
    if r1.len() == 0 {
        if r2.len() > 0 {
            assert(r2.contains(r2[0]));
        }
        assert(r1 =~= r2);
    } else {
        assert(r1.contains(r1[0]));
        assert(r2.len() > 0);
        assert(r2.contains(r2[0]));
        if r1[0] != r2[0] {
            let j = choose|j: int| 0 <= j < r1.len() && r1[j] == r2[0];
            let k = choose|k: int| 0 <= k < r2.len() && r2[k] == r1[0];
            assert(ranks_ahead(scores, r1[0] as int, r1[j] as int));
            assert(ranks_ahead(scores, r2[0] as int, r2[k] as int));
        }
        let t1 = r1.drop_first();
        let t2 = r2.drop_first();
        assert forall|x: usize| t1.contains(x) implies t2.contains(x) by {
            let i = choose|i: int| 0 <= i < t1.len() && t1[i] == x;
            assert(r1[i + 1] == x);
            assert(ranks_ahead(scores, r1[0] as int, r1[i + 1] as int));
            assert(r2.contains(x));
            let k = choose|k: int| 0 <= k < r2.len() && r2[k] == x;
            assert(k != 0);
            assert(t2[k - 1] == x);
        }
        assert forall|x: usize| t2.contains(x) implies t1.contains(x) by {
            let i = choose|i: int| 0 <= i < t2.len() && t2[i] == x;
            assert(r2[i + 1] == x);
            assert(ranks_ahead(scores, r2[0] as int, r2[i + 1] as int));
            assert(r1.contains(x));
            let k = choose|k: int| 0 <= k < r1.len() && r1[k] == x;
            assert(k != 0);
            assert(t1[k - 1] == x);
        }
        assert forall|i: int, j: int| 0 <= i < j < t1.len() implies ranks_ahead(scores, #[trigger] t1[i] as int, #[trigger] t1[j] as int) by {
            assert(t1[i] == r1[i + 1] && t1[j] == r1[j + 1]);
        }
        assert forall|i: int, j: int| 0 <= i < j < t2.len() implies ranks_ahead(scores, #[trigger] t2[i] as int, #[trigger] t2[j] as int) by {
            assert(t2[i] == r2[i + 1] && t2[j] == r2[j + 1]);
        }
        lemma_ranked_same_elements(scores, t1, t2);
        assert(r1 =~= seq![r1[0]] + t1);
        assert(r2 =~= seq![r2[0]] + t2);
    }
}

/// There is only one ranking of a list of scores: the contract of `rank_matches`
/// determines its result.
pub proof fn lemma_ranking_unique(scores: Seq<Option<i32>>, r1: Seq<usize>, r2: Seq<usize>)
    requires
        is_ranking(scores, r1),
        is_ranking(scores, r2),
    ensures
        r1 == r2,
{
    assert forall|x: usize| r1.contains(x) implies r2.contains(x) by {
        let i = choose|i: int| 0 <= i < r1.len() && r1[i] == x;
        assert(scores[r1[i] as int] is Some);
    }
    assert forall|x: usize| r2.contains(x) implies r1.contains(x) by {
        let i = choose|i: int| 0 <= i < r2.len() && r2[i] == x;
        assert(scores[r2[i] as int] is Some);
    }
    lemma_ranked_same_elements(scores, r1, r2);
}

/// A ranking holds no index twice, and holds exactly the entries that matched.
pub proof fn lemma_ranking_members(scores: Seq<Option<i32>>, r: Seq<usize>, j: usize)
    requires
        is_ranking(scores, r),
        j < scores.len(),
    ensures
        r.no_duplicates(),
        r.contains(j) <==> scores[j as int] is Some,
{
    assert forall|a: int, b: int| 0 <= a < r.len() && 0 <= b < r.len() && a != b implies r[a] != r[b] by {
        if a < b {
            assert(ranks_ahead(scores, r[a] as int, r[b] as int));
        } else {
            assert(ranks_ahead(scores, r[b] as int, r[a] as int));
        }
    }
    if r.contains(j) {
        let i = choose|i: int| 0 <= i < r.len() && r[i] == j;
        assert(scores[r[i] as int] is Some);
    }
}

} // verus!
