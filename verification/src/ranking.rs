//! Ranking of candidates by score: the best few, best first, ties broken by
//! the position a candidate has in the candidate sequence.

use crate::text::strings_view;
use vstd::prelude::*;

verus! {

/// How many candidates a ranking holds at most.
pub const MAX_RESULTS: usize = 5;

/// Candidate `i` stands before candidate `j` in every ranking: it scores
/// higher, or it scores the same and comes earlier among the candidates.
pub open spec fn outranks(scores: Seq<u64>, i: int, j: int) -> bool {
    scores[i] > scores[j] || (scores[i] == scores[j] && i < j)
}

/// `order` lists the positions of the best `MAX_RESULTS` candidates (all of
/// them, if there are fewer), best first.
pub open spec fn is_ranking(scores: Seq<u64>, order: Seq<usize>) -> bool {
    &&& order.len() <= MAX_RESULTS
    &&& order.len() <= scores.len()
    &&& order.len() == MAX_RESULTS || order.len() == scores.len()
    &&& forall|k: int| 0 <= k < order.len() ==> (#[trigger] order[k]) < scores.len()
    &&& forall|k: int, l: int|
        0 <= k < l < order.len() ==> outranks(scores, #[trigger] order[k] as int, #[trigger] order[l] as int)
    &&& forall|j: usize, k: int|
        j < scores.len() && !order.contains(j) && 0 <= k < order.len() ==> #[trigger] outranks(
            scores,
            order[k] as int,
            j as int,
        )
}

/// A ranking is determined by the scores: two orders that both rank the same
/// scores are the same order.
pub proof fn lemma_ranking_unique(scores: Seq<u64>, a: Seq<usize>, b: Seq<usize>)
    requires
        is_ranking(scores, a),
        is_ranking(scores, b),
    ensures
        a == b,
{
    assert(a.len() == b.len());
    assert forall|k: int| 0 <= k < a.len() implies a[k] == b[k] by {
        lemma_ranking_prefix_agrees(scores, a, b, k + 1);
    }
    assert(a =~= b);
}

/// The two rankings agree on their first `n` entries.
proof fn lemma_ranking_prefix_agrees(scores: Seq<u64>, a: Seq<usize>, b: Seq<usize>, n: int)
    requires
        is_ranking(scores, a),
        is_ranking(scores, b),
        0 <= n <= a.len(),
    ensures
        forall|k: int| 0 <= k < n ==> a[k] == b[k],
    decreases n,
{
    if n > 0 {
        lemma_ranking_prefix_agrees(scores, a, b, n - 1);
        let k = n - 1;
        if a[k] != b[k] {
            lemma_earlier_entry_wins(scores, a, b, k);
            lemma_earlier_entry_wins(scores, b, a, k);
        }
    }
}

/// If two rankings agree before position `k` and differ at `k`, the entry of
/// the second at `k` outranks the entry of the first.
proof fn lemma_earlier_entry_wins(scores: Seq<u64>, a: Seq<usize>, b: Seq<usize>, k: int)
    requires
        is_ranking(scores, a),
        is_ranking(scores, b),
        a.len() == b.len(),
        0 <= k < a.len(),
        forall|m: int| 0 <= m < k ==> a[m] == b[m],
        a[k] != b[k],
    ensures
        outranks(scores, b[k] as int, a[k] as int),
{
    let x = a[k];
    if b.contains(x) {
        let l = choose|l: int| 0 <= l < b.len() && b[l] == x;
        if l < k {
            assert(a[l] == b[l]);
            assert(outranks(scores, a[l] as int, a[k] as int));
        } else {
            assert(l > k);
            assert(outranks(scores, b[k] as int, b[l] as int));
        }
    } else {
        assert(outranks(scores, b[k] as int, x as int));
    }
}

/// The ranking of the candidates with these scores.
pub open spec fn ranking(scores: Seq<u64>) -> Seq<usize> {
    choose|order: Seq<usize>| is_ranking(scores, order)
}

/// Every sequence of scores that a `Vec` can hold has a ranking, and
/// `ranking` is it.
pub proof fn lemma_ranking_exists(scores: Seq<u64>)
    requires
        scores.len() <= usize::MAX,
    ensures
        is_ranking(scores, ranking(scores)),
{
    let order = lemma_ranking_built(scores);
}

/// Builds a ranking of `scores`, one candidate after the other.
proof fn lemma_ranking_built(scores: Seq<u64>) -> (order: Seq<usize>)
    requires
        scores.len() <= usize::MAX,
    ensures
        is_ranking(scores, order),
        order.len() < MAX_RESULTS ==> forall|j: usize| j < scores.len() ==> order.contains(j),
    decreases scores.len(),
{
    if scores.len() == 0 {
        Seq::empty()
    } else {
        let before = lemma_ranking_built(scores.drop_last());
        assert forall|k: int| 0 <= k < before.len() implies (#[trigger] before[k])
            < scores.len() by {}
        let p = lemma_position(scores, before, 0);
        let after = if p < MAX_RESULTS {
            let put = before.insert(p, (scores.len() - 1) as usize);
            if put.len() > MAX_RESULTS {
                put.drop_last()
            } else {
                put
            }
        } else {
            before
        };
        lemma_ranking_extends(scores, before, p, after);
        after
    }
}

/// Where the last candidate belongs among those ranked so far: behind every
/// entry that scores at least as high, searched from position `from` on.
proof fn lemma_position(scores: Seq<u64>, before: Seq<usize>, from: int) -> (p: int)
    requires
        scores.len() > 0,
        0 <= from <= before.len(),
        forall|k: int| 0 <= k < from ==> scores[(#[trigger] before[k]) as int] >= scores.last(),
    ensures
        from <= p <= before.len(),
        forall|k: int| 0 <= k < p ==> scores[(#[trigger] before[k]) as int] >= scores.last(),
        p < before.len() ==> scores[before[p] as int] < scores.last(),
    decreases before.len() - from,
{
    if from < before.len() && scores[before[from] as int] >= scores.last() {
        lemma_position(scores, before, from + 1)
    } else {
        from
    }
}

/// Ranks candidates by their scores.
pub fn rank_scores(scores: &Vec<u64>) -> (order: Vec<usize>)
    ensures
        is_ranking(scores@, order@),
        order@ == ranking(scores@),
{
    let n: usize = scores.len();
    let mut order: Vec<usize> = Vec::new();
    let mut i: usize = 0;
    while i < n
        invariant
            n == scores.len(),
            i <= n,
            is_ranking(scores@.take(i as int), order@),
            order.len() < MAX_RESULTS ==> forall|j: usize| j < i ==> order@.contains(j),
        decreases n - i,
    {
        let ghost before = order@;
        let ghost seen = scores@.take(i as int);
        let score: u64 = scores[i];
        let mut p: usize = 0;
        while p < order.len() && scores[order[p]] >= score
            invariant
                n == scores.len(),
                i < n,
                p <= order.len(),
                order@ == before,
                forall|k: int| 0 <= k < order.len() ==> (#[trigger] order[k]) < i,
                forall|k: int| 0 <= k < p ==> scores[(#[trigger] order[k]) as int] >= score,
            decreases order.len() - p,
        {
            p += 1;
        }
        if p < MAX_RESULTS {
            order.insert(p, i);
            if order.len() > MAX_RESULTS {
                order.pop();
            }
        }
        proof {
            assert(scores@.take(i + 1).drop_last() =~= seen);
            lemma_ranking_extends(scores@.take(i + 1), before, p as int, order@);
        }
        i += 1;
    }
    proof {
        assert(scores@.take(n as int) =~= scores@);
        lemma_ranking_exists(scores@);
        lemma_ranking_unique(scores@, order@, ranking(scores@));
    }
    order
}

/// One step of ranking: `before` ranks all candidates but the last, `p` is
/// where the last one belongs, and `after` is `before` with the last
/// candidate put in at `p`, cut to `MAX_RESULTS` entries.
proof fn lemma_ranking_extends(scores: Seq<u64>, before: Seq<usize>, p: int, after: Seq<usize>)
    requires
        scores.len() > 0,
        scores.len() <= usize::MAX,
        is_ranking(scores.drop_last(), before),
        before.len() < MAX_RESULTS ==> forall|j: usize| j < scores.len() - 1 ==> before.contains(j),
        0 <= p <= before.len(),
        forall|k: int| 0 <= k < p ==> scores[(#[trigger] before[k]) as int] >= scores.last(),
        p < before.len() ==> scores[before[p] as int] < scores.last(),
        after == if p < MAX_RESULTS {
            let put = before.insert(p, (scores.len() - 1) as usize);
            if put.len() > MAX_RESULTS {
                put.drop_last()
            } else {
                put
            }
        } else {
            before
        },
    ensures
        is_ranking(scores, after),
        after.len() < MAX_RESULTS ==> forall|j: usize| j < scores.len() ==> after.contains(j),
{
    let last = (scores.len() - 1) as usize;
    let seen = scores.drop_last();
    assert forall|k: int| 0 <= k < before.len() implies seen[before[k] as int] == scores[before[k] as int] by {}
    assert forall|k: int, l: int| 0 <= k < l < before.len() implies outranks(
        scores,
        #[trigger] before[k] as int,
        #[trigger] before[l] as int,
    ) by {
        assert(outranks(seen, before[k] as int, before[l] as int));
    }
    assert forall|k: int| p <= k < before.len() implies scores[(#[trigger] before[k]) as int]
        < scores.last() by {
        if k > p {
            assert(outranks(scores, before[p] as int, before[k] as int));
        }
    }
    if p < MAX_RESULTS {
        let put = before.insert(p, last);
        assert forall|k: int, l: int| 0 <= k < l < put.len() implies outranks(
            scores,
            #[trigger] put[k] as int,
            #[trigger] put[l] as int,
        ) by {
            if k < p && l > p {
                assert(outranks(scores, before[k] as int, before[l - 1] as int));
            }
        }
        assert forall|j: usize| j < scores.len() && !put.contains(j) implies !before.contains(j)
            && j != last by {
            assert(put[p] == last);
            if before.contains(j) {
                let m = choose|m: int| 0 <= m < before.len() && before[m] == j;
                assert(put[if m < p { m } else { m + 1 }] == j);
            }
        }
        if put.len() > MAX_RESULTS {
            let dropped = put.last();
            assert forall|j: usize, k: int|
                j < scores.len() && !after.contains(j) && 0 <= k < after.len() implies outranks(
                scores,
                after[k] as int,
                j as int,
            ) by {
                assert(after[k] == put[k]);
                if j == dropped {
                    assert(outranks(scores, put[k] as int, put[put.len() - 1] as int));
                } else {
                    if put.contains(j) {
                        let m = choose|m: int| 0 <= m < put.len() && put[m] == j;
                        assert(m < after.len());
                        assert(after[m] == j);
                    }
                    assert(!before.contains(j) && j != last);
                    assert(outranks(seen, before[before.len() - 1] as int, j as int));
                    assert(outranks(scores, put[k] as int, put[put.len() - 1] as int) || k
                        == put.len() - 1);
                    assert(outranks(scores, after[k] as int, dropped as int));
                    assert(outranks(seen, dropped as int, j as int));
                }
            }
        } else {
            assert forall|j: usize| j < scores.len() implies after.contains(j) by {
                if j == last {
                    assert(after[p] == last);
                } else {
                    assert(before.contains(j));
                    let m = choose|m: int| 0 <= m < before.len() && before[m] == j;
                    assert(after[if m < p { m } else { m + 1 }] == j);
                }
            }
        }
    } else {
        assert forall|j: usize, k: int|
            j < scores.len() && !after.contains(j) && 0 <= k < after.len() implies outranks(
            scores,
            after[k] as int,
            j as int,
        ) by {
            if j != last {
                assert(outranks(seen, before[k] as int, j as int));
            }
        }
    }
}

/// The Jaro-Winkler similarity of two strings, as the bit pattern of the
/// floating-point score. A score is a number from 0.0 upwards, and of two
/// such numbers the higher one has the higher bit pattern.
pub uninterp spec fn jaro_winkler_bits(query: Seq<char>, candidate: Seq<char>) -> u64;

/// Calls `strsim::jaro_winkler`. The contract claims only that the score is
/// a function of the two strings, character by character, and gives that
/// function its name; nothing is claimed of its value.
#[verifier::external_body]
fn similarity(query: &str, candidate: &str) -> (bits: u64)
    ensures
        bits == jaro_winkler_bits(query@, candidate@),
{
    strsim::jaro_winkler(query, candidate).to_bits()
}

/// The score of each candidate against the query.
pub open spec fn scores_of(query: Seq<char>, candidates: Seq<Seq<char>>) -> Seq<u64> {
    Seq::new(candidates.len(), |i: int| jaro_winkler_bits(query, candidates[i]))
}

/// The best candidates for the query with their scores, best first.
pub open spec fn top_matches(query: Seq<char>, candidates: Seq<Seq<char>>) -> Seq<
    (Seq<char>, u64),
> {
    let scores = scores_of(query, candidates);
    ranking(scores).map_values(|i: usize| (candidates[i as int], scores[i as int]))
}

/// The best candidates for the query, best first.
pub open spec fn top_candidates(query: Seq<char>, candidates: Seq<Seq<char>>) -> Seq<Seq<char>> {
    top_matches(query, candidates).map_values(|m: (Seq<char>, u64)| m.0)
}

/// The best candidates are at most `MAX_RESULTS` of the candidates, and
/// where no candidate occurs twice, none occurs twice among the best.
pub proof fn lemma_top_candidates(query: Seq<char>, candidates: Seq<Seq<char>>)
    requires
        candidates.len() <= usize::MAX,
    ensures
        top_candidates(query, candidates).len() <= MAX_RESULTS,
        top_candidates(query, candidates).len() <= candidates.len(),
        top_candidates(query, candidates).len() == MAX_RESULTS || top_candidates(
            query,
            candidates,
        ).len() == candidates.len(),
        forall|k: int|
            0 <= k < top_candidates(query, candidates).len() ==> candidates.contains(
                #[trigger] top_candidates(query, candidates)[k],
            ),
        candidates.no_duplicates() ==> top_candidates(query, candidates).no_duplicates(),
{
    let scores = scores_of(query, candidates);
    let order = ranking(scores);
    let top = top_candidates(query, candidates);
    lemma_ranking_exists(scores);
    assert forall|k: int| 0 <= k < top.len() implies candidates.contains(#[trigger] top[k]) by {
        assert(candidates[order[k] as int] == top[k]);
    }
    if candidates.no_duplicates() {
        assert forall|k: int, l: int| 0 <= k < top.len() && 0 <= l < top.len() && k != l implies top[k]
            != top[l] by {
            if k < l {
                assert(outranks(scores, order[k] as int, order[l] as int));
            } else {
                assert(outranks(scores, order[l] as int, order[k] as int));
            }
        }
    }
}

/// Ranked matches, each string as the sequence of its characters.
pub open spec fn matches_view(matches: Seq<(String, u64)>) -> Seq<(Seq<char>, u64)> {
    matches.map_values(|m: (String, u64)| (m.0@, m.1))
}

/// Scores every candidate against the query.
pub fn score_candidates(query: &str, candidates: &Vec<String>) -> (scores: Vec<u64>)
    ensures
        scores@ == scores_of(query@, strings_view(candidates@)),
{
    let mut scores: Vec<u64> = Vec::new();
    let mut i: usize = 0;
    while i < candidates.len()
        invariant
            i <= candidates.len(),
            scores.len() == i,
            forall|k: int|
                0 <= k < i ==> scores[k] == jaro_winkler_bits(query@, (#[trigger] candidates[k])@),
        decreases candidates.len() - i,
    {
        scores.push(similarity(query, candidates[i].as_str()));
        i += 1;
    }
    assert(scores@ =~= scores_of(query@, strings_view(candidates@)));
    scores
}

/// Ranks the candidates against the query: the best `MAX_RESULTS` of them,
/// by falling score, candidates of equal score in the order in which
/// `candidates` holds them.
pub fn rank(query: &str, candidates: &Vec<String>) -> (matches: Vec<(String, u64)>)
    ensures
        matches_view(matches@) == top_matches(query@, strings_view(candidates@)),
        matches.len() <= MAX_RESULTS,
        matches.len() <= candidates.len(),
        matches.len() == MAX_RESULTS || matches.len() == candidates.len(),
        forall|k: int, l: int| 0 <= k <= l < matches.len() ==> matches[k].1 >= matches[l].1,
        forall|k: int|
            0 <= k < matches.len() ==> (#[trigger] matches[k]).1 == jaro_winkler_bits(
                query@,
                matches[k].0@,
            ),
{
    let scores = score_candidates(query, candidates);
    let order = rank_scores(&scores);
    let mut matches: Vec<(String, u64)> = Vec::new();
    let mut k: usize = 0;
    while k < order.len()
        invariant
            k <= order.len(),
            matches.len() == k,
            scores.len() == candidates.len(),
            is_ranking(scores@, order@),
            scores@ == scores_of(query@, strings_view(candidates@)),
            forall|m: int|
                0 <= m < k ==> (#[trigger] matches[m]).0@ == candidates[order[m] as int]@
                    && matches[m].1 == scores[order[m] as int],
        decreases order.len() - k,
    {
        let i: usize = order[k];
        matches.push((candidates[i].clone(), scores[i]));
        k += 1;
    }
    proof {
        assert(matches_view(matches@) =~= top_matches(query@, strings_view(candidates@)));
        assert forall|k: int, l: int| 0 <= k <= l < matches.len() implies matches[k].1
            >= matches[l].1 by {
            if k < l {
                assert(outranks(scores@, order[k] as int, order[l] as int));
            }
        }
    }
    matches
}

} // verus!
