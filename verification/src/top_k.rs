//! The best `k` of a list of scores, some positions left out.

use crate::ids::{index_contains, index_insert, index_members, new_index_set};
use crate::order::{
    comparable, rank_descending, ranking, ranking_exists, ranking_is_unique, ranks_above,
    ranks_before,
};
use crate::selection::{lemma_tally_step, tally};
use ahash::AHashSet;
use vstd::prelude::*;
use vstd::std_specs::cmp::PartialOrdIs;

verus! {

/// The positions below `n` that are not excluded, ascending.
pub open spec fn candidates(n: int, excluded: Set<usize>) -> Seq<usize>
    decreases n,
{
    if n <= 0 {
        Seq::empty()
    } else if excluded.contains((n - 1) as usize) {
        candidates(n - 1, excluded)
    } else {
        candidates(n - 1, excluded).push((n - 1) as usize)
    }
}

/// The scores of the candidates.
pub open spec fn candidate_scores<T>(scores: Seq<T>, excluded: Set<usize>) -> Seq<T> {
    candidates(scores.len() as int, excluded).map_values(|i: usize| scores[i as int])
}

/// The first `k` elements of `s`, or all of them.
pub open spec fn at_most<A>(s: Seq<A>, k: usize) -> Seq<A> {
    if k < s.len() {
        s.take(k as int)
    } else {
        s
    }
}

/// The best `k` candidates with their scores: highest score first, equal scores in ascending
/// position.
pub open spec fn top_k<T: PartialOrd>(
    scores: Seq<T>,
    excluded: Set<usize>,
    k: usize,
) -> Seq<(usize, T)> {
    let positions = candidates(scores.len() as int, excluded);
    let values = candidate_scores(scores, excluded);
    at_most(ranking(values), k).map_values(
        |p: usize| (positions[p as int], values[p as int]),
    )
}

/// What `candidates` holds.
pub proof fn lemma_candidates(n: int, excluded: Set<usize>)
    requires
        0 <= n <= usize::MAX,
    ensures
        candidates(n, excluded).len() <= n,
        forall|k: int|
            0 <= k < candidates(n, excluded).len() ==> (#[trigger] candidates(n, excluded)[k]) < n
                && !excluded.contains(candidates(n, excluded)[k]),
        forall|a: int, b: int|
            #![trigger candidates(n, excluded)[a], candidates(n, excluded)[b]]
            0 <= a < b < candidates(n, excluded).len() ==> candidates(n, excluded)[a] < candidates(
                n,
                excluded,
            )[b],
        forall|i: usize|
            i < n && !excluded.contains(i) ==> #[trigger] candidates(n, excluded).contains(i),
    decreases n,
{
    if n > 0 {
        lemma_candidates(n - 1, excluded);
        let before = candidates(n - 1, excluded);
        let after = candidates(n, excluded);
        assert forall|i: usize| i < n && !excluded.contains(i) implies #[trigger] after.contains(
            i,
        ) by {
            if i == n - 1 {
                assert(after.last() == i);
            } else {
                assert(before.contains(i));
                let k = choose|k: int| 0 <= k < before.len() && before[k] == i;
                assert(after[k] == i);
            }
        }
    }
}

/// The set of the indices in `indices`.
pub fn index_set(indices: &[usize]) -> (set: AHashSet<usize>)
    ensures
        index_members(set) == indices@.to_set(),
{
    let mut set = new_index_set();
    let mut i: usize = 0;
    while i < indices.len()
        invariant
            i <= indices@.len(),
            index_members(set) == indices@.take(i as int).to_set(),
        decreases indices@.len() - i,
    {
        index_insert(&mut set, indices[i]);
        proof {
            let before = indices@.take(i as int);
            let after = indices@.take(i + 1);
            assert(after =~= before.push(indices@[i as int]));
            assert(after.to_set() =~= before.to_set().insert(indices@[i as int])) by {
                assert forall|x: usize|
                    after.to_set().contains(x) <==> before.to_set().insert(
                        indices@[i as int],
                    ).contains(x) by {
                    if after.contains(x) {
                        let k = choose|k: int| 0 <= k < after.len() && after[k] == x;
                        if k < before.len() {
                            assert(before[k] == x);
                        }
                    }
                    if before.contains(x) {
                        let k = choose|k: int| 0 <= k < before.len() && before[k] == x;
                        assert(after[k] == x);
                    }
                    assert(after[i as int] == indices@[i as int]);
                }
            }
        }
        i = i + 1;
    }
    assert(indices@.take(i as int) =~= indices@);
    set
}

/// The best `k` positions of `scores` outside `excluded`.
pub fn select_top_k<T: PartialOrd + Copy>(
    scores: &[T],
    excluded: &AHashSet<usize>,
    k: usize,
) -> (ranked: Vec<(usize, T)>)
    requires
        comparable(candidate_scores(scores@, index_members(*excluded))),
    ensures
        ranked@ == top_k(scores@, index_members(*excluded), k),
{
    let ghost out = index_members(*excluded);
    let mut positions: Vec<usize> = Vec::new();
    let mut values: Vec<T> = Vec::new();
    let mut i: usize = 0;
    while i < scores.len()
        invariant
            i <= scores@.len(),
            out == index_members(*excluded),
            positions@ == candidates(i as int, out),
            values@ == positions@.map_values(|p: usize| scores@[p as int]),
        decreases scores@.len() - i,
    {
        if !index_contains(excluded, i) {
            positions.push(i);
            values.push(scores[i]);
            assert(values@ =~= positions@.map_values(|p: usize| scores@[p as int]));
        }
        i = i + 1;
    }
    assert(values@ =~= candidate_scores(scores@, out));
    let order = rank_descending(&values);
    proof {
        ranking_is_unique(order@, values@);
    }
    let ghost pair = |p: usize| (positions@[p as int], values@[p as int]);
    let mut ranked: Vec<(usize, T)> = Vec::new();
    let mut j: usize = 0;
    while j < order.len() && j < k
        invariant
            j <= order@.len(),
            j <= k,
            positions@.len() == values@.len(),
            forall|a: int| 0 <= a < order@.len() ==> (#[trigger] order@[a]) < values@.len(),
            pair == (|p: usize| (positions@[p as int], values@[p as int])),
            ranked@ == order@.take(j as int).map_values(pair),
        decreases order@.len() - j,
    {
        let p: usize = order[j];
        ranked.push((positions[p], values[p]));
        assert(ranked@ =~= order@.take(j + 1).map_values(pair));
        j = j + 1;
    }
    proof {
        assert(order@.take(j as int) =~= at_most(order@, k));
        assert(ranked@ =~= top_k(scores@, out, k));
    }
    ranked
}

/// The best `k` are what they are called: their number is `k` or that of the candidates, they are
/// candidates with their own scores, in descending order with ties in ascending position, and no
/// candidate left out comes before one of them.
pub proof fn top_k_is_best<T: PartialOrd>(scores: Seq<T>, excluded: Set<usize>, k: usize)
    requires
        scores.len() <= usize::MAX,
        comparable(candidate_scores(scores, excluded)),
    ensures
        ({
            let ranked = top_k(scores, excluded, k);
            let n = candidates(scores.len() as int, excluded).len();
            &&& ranked.len() == (if k < n {
                k as nat
            } else {
                n
            })
            &&& forall|a: int|
                0 <= a < ranked.len() ==> {
                    &&& (#[trigger] ranked[a]).0 < scores.len()
                    &&& !excluded.contains(ranked[a].0)
                    &&& ranked[a].1 == scores[ranked[a].0 as int]
                }
            &&& forall|a: int, b: int|
                #![trigger ranked[a], ranked[b]]
                0 <= a < b < ranked.len() ==> ranks_before(
                    scores,
                    ranked[a].0 as int,
                    ranked[b].0 as int,
                )
            &&& forall|i: usize, a: int|
                #![trigger excluded.contains(i), ranked[a]]
                i < scores.len() && !excluded.contains(i) && 0 <= a < ranked.len() && (forall|b:
                    int| 0 <= b < ranked.len() ==> (#[trigger] ranked[b]).0 != i) ==> ranks_before(
                    scores,
                    ranked[a].0 as int,
                    i as int,
                )
        }),
{
    let positions = candidates(scores.len() as int, excluded);
    let values = candidate_scores(scores, excluded);
    let order = ranking(values);
    lemma_candidates(scores.len() as int, excluded);
    ranking_exists(values);
    let ranked = top_k(scores, excluded, k);
    assert(positions.len() == values.len());
    assert(forall|a: int| 0 <= a < order.len() ==> (#[trigger] order[a]) < values.len());
    assert forall|a: int| 0 <= a < ranked.len() implies (#[trigger] ranked[a]) == (
        positions[order[a] as int],
        values[order[a] as int],
    ) by {}
    assert forall|a: int, b: int|
        #![trigger ranked[a], ranked[b]]
        0 <= a < b < ranked.len() implies ranks_before(
        scores,
        ranked[a].0 as int,
        ranked[b].0 as int,
    ) by {
        assert(ranks_before(values, order[a] as int, order[b] as int));
    }
    assert forall|i: usize, a: int|
        #![trigger excluded.contains(i), ranked[a]]
        i < scores.len() && !excluded.contains(i) && 0 <= a < ranked.len() && (forall|b: int|
            0 <= b < ranked.len() ==> (#[trigger] ranked[b]).0 != i) implies ranks_before(
        scores,
        ranked[a].0 as int,
        i as int,
    ) by {
        assert(positions.contains(i));
        let p = choose|p: int| 0 <= p < positions.len() && positions[p] == i;
        assert(order.contains(p as usize));
        let b = choose|b: int| 0 <= b < order.len() && order[b] == p as usize;
        if b < ranked.len() {
            assert(ranked[b].0 == i);
        }
        assert(ranks_before(values, order[a] as int, order[b] as int));
    }
}

/// There are as many candidates as positions that are not excluded.
proof fn lemma_num_candidates(n: nat, excluded: Set<usize>)
    ensures
        candidates(n as int, excluded).len() == tally(
            n,
            |i: int| !excluded.contains(i as usize),
        ),
    decreases n,
{
    let free = |i: int| !excluded.contains(i as usize);
    if n > 0 {
        lemma_num_candidates((n - 1) as nat, excluded);
        lemma_tally_step((n - 1) as nat, free);
    } else {
        lemma_tally_step(0, free);
    }
}

/// Of two candidates, not both are above the other.
proof fn lemma_candidates_compare<T: PartialOrd>(
    scores: Seq<T>,
    excluded: Set<usize>,
    i: usize,
    j: usize,
)
    requires
        scores.len() <= usize::MAX,
        comparable(candidate_scores(scores, excluded)),
        i < scores.len() && !excluded.contains(i),
        j < scores.len() && !excluded.contains(j),
    ensures
        ranks_above(scores[i as int], scores[j as int]) ==> !ranks_above(
            scores[j as int],
            scores[i as int],
        ),
{
    let positions = candidates(scores.len() as int, excluded);
    let values = candidate_scores(scores, excluded);
    lemma_candidates(scores.len() as int, excluded);
    assert(positions.contains(i) && positions.contains(j));
    let p = choose|p: int| 0 <= p < positions.len() && positions[p] == i;
    let q = choose|q: int| 0 <= q < positions.len() && positions[q] == j;
    assert(values[p] == scores[i as int] && values[q] == scores[j as int]);
    if ranks_above(values[p], values[q]) {
        assert(!ranks_above(values[q], values[p]));
    }
}

/// The best `k`, by their scores alone: as many as asked for or there are positions that are not
/// excluded; none is followed by a greater score, nor is one that is no number followed by a number;
/// equal ones stand in ascending position; and no score left out is greater than one of them.
pub proof fn top_k_descends_by_score<T: PartialOrd>(scores: Seq<T>, excluded: Set<usize>, k: usize)
    requires
        scores.len() <= usize::MAX,
        comparable(candidate_scores(scores, excluded)),
    ensures
        ({
            let ranked = top_k(scores, excluded, k);
            let free = tally(scores.len(), |i: int| !excluded.contains(i as usize));
            &&& ranked.len() == (if k <= free {
                k as nat
            } else {
                free
            })
            &&& forall|a: int, b: int|
                #![trigger ranked[a], ranked[b]]
                0 <= a < b < ranked.len() ==> {
                    let x = scores[ranked[a].0 as int];
                    let y = scores[ranked[b].0 as int];
                    &&& ranked[a].0 != ranked[b].0
                    &&& !y.is_gt(&x)
                    &&& y.is_le(&y) ==> x.is_le(&x)
                    &&& !x.is_gt(&y) && (x.is_le(&x) ==> y.is_le(&y)) ==> ranked[a].0 < ranked[b].0
                }
            &&& forall|i: usize, a: int|
                #![trigger excluded.contains(i), ranked[a]]
                i < scores.len() && !excluded.contains(i) && 0 <= a < ranked.len() && (forall|b:
                    int| 0 <= b < ranked.len() ==> (#[trigger] ranked[b]).0 != i)
                    ==> !scores[i as int].is_gt(&scores[ranked[a].0 as int])
        }),
{
    top_k_is_best(scores, excluded, k);
    lemma_num_candidates(scores.len(), excluded);
    let ranked = top_k(scores, excluded, k);
    assert forall|a: int, b: int|
        #![trigger ranked[a], ranked[b]]
        0 <= a < b < ranked.len() implies {
        let x = scores[ranked[a].0 as int];
        let y = scores[ranked[b].0 as int];
        &&& ranked[a].0 != ranked[b].0
        &&& !y.is_gt(&x)
        &&& y.is_le(&y) ==> x.is_le(&x)
        &&& !x.is_gt(&y) && (x.is_le(&x) ==> y.is_le(&y)) ==> ranked[a].0 < ranked[b].0
    } by {
        lemma_candidates_compare(scores, excluded, ranked[a].0, ranked[b].0);
        assert(ranks_before(scores, ranked[a].0 as int, ranked[b].0 as int));
    }
    assert forall|i: usize, a: int|
        #![trigger excluded.contains(i), ranked[a]]
        i < scores.len() && !excluded.contains(i) && 0 <= a < ranked.len() && (forall|b: int|
            0 <= b < ranked.len() ==> (#[trigger] ranked[b]).0 != i) implies !scores[i as int].is_gt(
        &scores[ranked[a].0 as int],
    ) by {
        lemma_candidates_compare(scores, excluded, ranked[a].0, i);
        assert(ranks_before(scores, ranked[a].0 as int, i as int));
    }
}

} // verus!
