//! Ranking metrics, as exact fractions and as the terms of their sums.

use crate::selection::{lemma_collects, lemma_places_step, places};
use std::collections::HashSet;
use vstd::prelude::*;

verus! {

broadcast use vstd::std_specs::hash::group_hash_axioms;

/// A fraction whose denominator is not zero.
#[derive(Debug, Clone, Copy, PartialEq, Eq, Structural)]
pub struct Ratio {
    pub hits: usize,
    pub out_of: usize,
}

/// The terms of a normalized discounted cumulative gain.
///
/// With `g(r) = 1 / log2(r + 2)`, the gain is the sum of `g` over `hit_ranks`, divided by the sum of
/// `g` over `0..ideal_hits`, and zero where there is no ideal hit.
#[derive(Debug, Clone)]
pub struct NdcgTerms {
    /// The ranks of the relevant items among the recommended ones, counted from zero, ascending.
    pub hit_ranks: Vec<usize>,
    /// The number of hits of an ideal list.
    pub ideal_hits: usize,
}

/// The terms of an average precision: their sum divided by the number of relevant items, and zero
/// where nothing is relevant.
#[derive(Debug, Clone)]
pub struct PrecisionTerms {
    /// For each hit, the precision of the list up to it.
    pub precisions: Vec<Ratio>,
    /// The number of relevant items.
    pub num_relevant: usize,
}

/// The relevant items that occur among the first `n` recommended ones.
pub open spec fn found_items(recommended: Seq<usize>, relevant: Set<usize>, n: int) -> Set<usize> {
    recommended.take(n).to_set().intersect(relevant)
}

/// The number of the first `n` places that hold a relevant item.
pub open spec fn num_hits(recommended: Seq<usize>, relevant: Set<usize>, n: int) -> nat
    decreases n,
{
    if n <= 0 {
        0
    } else if relevant.contains(recommended[n - 1]) {
        num_hits(recommended, relevant, n - 1) + 1
    } else {
        num_hits(recommended, relevant, n - 1)
    }
}

/// The length of the list cut at `k`.
pub open spec fn cut(recommended: Seq<usize>, k: int) -> int {
    if k < recommended.len() {
        k
    } else {
        recommended.len() as int
    }
}

/// The ranks of the relevant items among the first `n` recommended ones.
pub open spec fn ranks_of_hits(
    recommended: Seq<usize>,
    relevant: Set<usize>,
    n: int,
) -> Seq<usize>
    decreases n,
{
    if n <= 0 {
        Seq::empty()
    } else if relevant.contains(recommended[n - 1]) {
        ranks_of_hits(recommended, relevant, n - 1).push((n - 1) as usize)
    } else {
        ranks_of_hits(recommended, relevant, n - 1)
    }
}

/// The precision at each hit among the first `n` recommended items.
pub open spec fn precisions_at_hits(
    recommended: Seq<usize>,
    relevant: Set<usize>,
    n: int,
) -> Seq<Ratio>
    decreases n,
{
    if n <= 0 {
        Seq::empty()
    } else if relevant.contains(recommended[n - 1]) {
        precisions_at_hits(recommended, relevant, n - 1).push(
            (Ratio {
                hits: num_hits(recommended, relevant, n) as usize,
                out_of: n as usize,
            }),
        )
    } else {
        precisions_at_hits(recommended, relevant, n - 1)
    }
}

/// The items that occur in the first `n` lists.
pub open spec fn items_of(lists: Seq<Vec<usize>>, n: int) -> Set<usize>
    decreases n,
{
    if n <= 0 {
        Set::empty()
    } else {
        items_of(lists, n - 1).union(lists[n - 1]@.to_set())
    }
}

/// One more place adds its item to the items found.
proof fn lemma_found_items(recommended: Seq<usize>, relevant: Set<usize>, n: int)
    requires
        0 <= n < recommended.len(),
    ensures
        found_items(recommended, relevant, n + 1) == (if relevant.contains(recommended[n]) {
            found_items(recommended, relevant, n).insert(recommended[n])
        } else {
            found_items(recommended, relevant, n)
        }),
        found_items(recommended, relevant, n).finite(),
{
    let short = recommended.take(n);
    let long = recommended.take(n + 1);
    assert(long =~= short.push(recommended[n]));
    vstd::seq_lib::seq_to_set_is_finite(short);
    assert forall|x: usize| long.contains(x) <==> short.contains(x) || x == recommended[n] by {
        if long.contains(x) {
            let k = choose|k: int| 0 <= k < long.len() && long[k] == x;
            if k < n {
                assert(short[k] == x);
            }
        }
        if short.contains(x) {
            let k = choose|k: int| 0 <= k < short.len() && short[k] == x;
            assert(long[k] == x);
        }
        assert(long[n] == recommended[n]);
    }
    let grown = if relevant.contains(recommended[n]) {
        found_items(recommended, relevant, n).insert(recommended[n])
    } else {
        found_items(recommended, relevant, n)
    };
    assert(found_items(recommended, relevant, n + 1) =~= grown);
}

/// Counts the relevant items among the first `k` recommended ones, each once.
fn count_found(recommended: &[usize], relevant: &HashSet<usize>, k: usize) -> (count: usize)
    ensures
        count == found_items(recommended@, relevant@, cut(recommended@, k as int)).len(),
{
    let mut found: HashSet<usize> = HashSet::new();
    let mut i: usize = 0;
    assert(found@ =~= found_items(recommended@, relevant@, 0));
    while i < recommended.len() && i < k
        invariant
            i <= recommended@.len(),
            i <= k,
            found@ == found_items(recommended@, relevant@, i as int),
        decreases recommended@.len() - i,
    {
        proof {
            lemma_found_items(recommended@, relevant@, i as int);
        }
        if relevant.contains(&recommended[i]) {
            found.insert(recommended[i]);
        }
        i = i + 1;
    }
    found.len()
}

/// Precision at `k`: the number of relevant items among the first `k` recommended ones, over `k`.
/// Zero for `k == 0`.
pub fn precision_at_k(recommended: &[usize], relevant: &HashSet<usize>, k: usize) -> (precision:
    Ratio)
    ensures
        k == 0 ==> precision == (Ratio { hits: 0, out_of: 1 }),
        k > 0 ==> precision.out_of == k && precision.hits == found_items(
            recommended@,
            relevant@,
            cut(recommended@, k as int),
        ).len(),
{
    if k == 0 {
        return Ratio { hits: 0, out_of: 1 };
    }
    Ratio { hits: count_found(recommended, relevant, k), out_of: k }
}

/// Recall at `k`: the share of the relevant items found in the first `k` places. Zero where nothing
/// is relevant.
pub fn recall_at_k(recommended: &[usize], relevant: &HashSet<usize>, k: usize) -> (recall: Ratio)
    ensures
        relevant@.len() == 0 ==> recall == (Ratio { hits: 0, out_of: 1 }),
        relevant@.len() > 0 ==> recall.out_of == relevant@.len() && recall.hits == found_items(
            recommended@,
            relevant@,
            cut(recommended@, k as int),
        ).len(),
{
    if relevant.len() == 0 {
        return Ratio { hits: 0, out_of: 1 };
    }
    Ratio { hits: count_found(recommended, relevant, k), out_of: relevant.len() }
}

/// The terms of NDCG at `k`; there are none for `k == 0` or where nothing is relevant.
pub fn ndcg_at_k(recommended: &[usize], relevant: &HashSet<usize>, k: usize) -> (terms: NdcgTerms)
    ensures
        k == 0 || relevant@.len() == 0 ==> terms.hit_ranks@.len() == 0 && terms.ideal_hits == 0,
        k > 0 && relevant@.len() > 0 ==> {
            &&& terms.hit_ranks@ == ranks_of_hits(
                recommended@,
                relevant@,
                cut(recommended@, k as int),
            )
            &&& terms.ideal_hits == (if relevant@.len() <= k {
                relevant@.len() as int
            } else {
                k as int
            })
        },
{
    if k == 0 || relevant.len() == 0 {
        return NdcgTerms { hit_ranks: Vec::new(), ideal_hits: 0 };
    }
    let mut hit_ranks: Vec<usize> = Vec::new();
    let mut i: usize = 0;
    while i < recommended.len() && i < k
        invariant
            i <= recommended@.len(),
            i <= k,
            hit_ranks@ == ranks_of_hits(recommended@, relevant@, i as int),
        decreases recommended@.len() - i,
    {
        if relevant.contains(&recommended[i]) {
            hit_ranks.push(i);
        }
        i = i + 1;
    }
    let num_relevant: usize = relevant.len();
    let ideal_hits: usize = if num_relevant <= k {
        num_relevant
    } else {
        k
    };
    NdcgTerms { hit_ranks, ideal_hits }
}

/// The terms of the average precision of a whole list; there are none where nothing is relevant.
pub fn mean_average_precision(recommended: &[usize], relevant: &HashSet<usize>) -> (terms:
    PrecisionTerms)
    ensures
        terms.num_relevant == relevant@.len(),
        relevant@.len() == 0 ==> terms.precisions@.len() == 0,
        relevant@.len() > 0 ==> terms.precisions@ == precisions_at_hits(
            recommended@,
            relevant@,
            recommended@.len() as int,
        ),
{
    let mut precisions: Vec<Ratio> = Vec::new();
    if relevant.len() == 0 {
        return PrecisionTerms { precisions, num_relevant: 0 };
    }
    let mut hits: usize = 0;
    let mut i: usize = 0;
    while i < recommended.len()
        invariant
            i <= recommended@.len(),
            hits <= i,
            hits == num_hits(recommended@, relevant@, i as int),
            precisions@ == precisions_at_hits(recommended@, relevant@, i as int),
        decreases recommended@.len() - i,
    {
        if relevant.contains(&recommended[i]) {
            hits = hits + 1;
            precisions.push(Ratio { hits, out_of: i + 1 });
        }
        i = i + 1;
    }
    PrecisionTerms { precisions, num_relevant: relevant.len() }
}

/// Coverage: the share of the catalogue that occurs in any of the lists. Zero for an empty
/// catalogue.
pub fn coverage(all_recommendations: &[Vec<usize>], num_total_items: usize) -> (share: Ratio)
    ensures
        num_total_items == 0 ==> share == (Ratio { hits: 0, out_of: 1 }),
        num_total_items > 0 ==> share.out_of == num_total_items && share.hits == items_of(
            all_recommendations@,
            all_recommendations@.len() as int,
        ).len(),
{
    if num_total_items == 0 {
        return Ratio { hits: 0, out_of: 1 };
    }
    let mut unique: HashSet<usize> = HashSet::new();
    let mut i: usize = 0;
    while i < all_recommendations.len()
        invariant
            i <= all_recommendations@.len(),
            unique@ == items_of(all_recommendations@, i as int),
        decreases all_recommendations@.len() - i,
    {
        let list = &all_recommendations[i];
        let ghost before = unique@;
        let mut j: usize = 0;
        assert(before.union(list@.take(0).to_set()) =~= before);
        while j < list.len()
            invariant
                j <= list@.len(),
                unique@ == before.union(list@.take(j as int).to_set()),
            decreases list@.len() - j,
        {
            unique.insert(list[j]);
            proof {
                let short = list@.take(j as int);
                let long = list@.take(j + 1);
                assert(long =~= short.push(list@[j as int]));
                assert forall|x: usize|
                    long.contains(x) <==> short.contains(x) || x == list@[j as int] by {
                    if long.contains(x) {
                        let k = choose|k: int| 0 <= k < long.len() && long[k] == x;
                        if k < short.len() {
                            assert(short[k] == x);
                        }
                    }
                    if short.contains(x) {
                        let k = choose|k: int| 0 <= k < short.len() && short[k] == x;
                        assert(long[k] == x);
                    }
                    assert(long[j as int] == list@[j as int]);
                }
                assert(unique@ =~= before.union(long.to_set()));
            }
            j = j + 1;
        }
        assert(list@.take(j as int) =~= list@);
        i = i + 1;
    }
    Ratio { hits: unique.len(), out_of: num_total_items }
}

/// Hit rate at `k`: whether any of the first `k` places holds a relevant item.
pub fn hit_rate_at_k(recommended: &[usize], relevant: &HashSet<usize>, k: usize) -> (hit: bool)
    ensures
        hit == exists|i: int|
            0 <= i < cut(recommended@, k as int) && relevant@.contains(
                #[trigger] recommended@[i],
            ),
{
    let mut i: usize = 0;
    while i < recommended.len() && i < k
        invariant
            i <= recommended@.len(),
            i <= k,
            forall|j: int| 0 <= j < i ==> !relevant@.contains(#[trigger] recommended@[j]),
        decreases recommended@.len() - i,
    {
        if relevant.contains(&recommended[i]) {
            return true;
        }
        i = i + 1;
    }
    false
}

/// Hits are a part of the list, and there is one exactly where the list holds a relevant item.
pub proof fn hits_are_bounded(recommended: Seq<usize>, relevant: Set<usize>, n: int)
    requires
        0 <= n <= recommended.len(),
    ensures
        num_hits(recommended, relevant, n) <= n,
        num_hits(recommended, relevant, n) > 0 <==> exists|i: int|
            0 <= i < n && relevant.contains(#[trigger] recommended[i]),
    decreases n,
{
    if n > 0 {
        hits_are_bounded(recommended, relevant, n - 1);
        if relevant.contains(recommended[n - 1]) {
            assert(0 <= n - 1 < n);
        }
    }
}

/// No more relevant items are found than there are, nor more than there are places: recall and
/// precision are at most one.
pub proof fn recall_is_at_most_one(recommended: Seq<usize>, relevant: Set<usize>, n: int)
    requires
        0 <= n <= recommended.len(),
        relevant.finite(),
    ensures
        found_items(recommended, relevant, n).len() <= relevant.len(),
        found_items(recommended, relevant, n).len() <= n,
{
    let places = recommended.take(n);
    vstd::seq_lib::seq_to_set_is_finite(places);
    places.lemma_cardinality_of_set();
    vstd::set_lib::lemma_len_subset(found_items(recommended, relevant, n), relevant);
    vstd::set_lib::lemma_len_subset(found_items(recommended, relevant, n), places.to_set());
}

/// In a list without repetition, as many relevant items are found as places hold one.
pub proof fn distinct_hits_are_found_items(recommended: Seq<usize>, relevant: Set<usize>, n: int)
    requires
        0 <= n <= recommended.len(),
        recommended.no_duplicates(),
    ensures
        found_items(recommended, relevant, n).len() == num_hits(recommended, relevant, n),
    decreases n,
{
    if n > 0 {
        distinct_hits_are_found_items(recommended, relevant, n - 1);
        lemma_found_items(recommended, relevant, n - 1);
        let before = recommended.take(n - 1);
        assert(!before.contains(recommended[n - 1])) by {
            if before.contains(recommended[n - 1]) {
                let k = choose|k: int| 0 <= k < before.len() && before[k] == recommended[n - 1];
                assert(recommended[k] == recommended[n - 1]);
            }
        }
    } else {
        assert(found_items(recommended, relevant, n) =~= Set::empty());
    }
}

/// The hits of a list are at distinct ranks, the `j`-th of them at rank `j` or later: no list has a
/// greater gain than one with as many hits at the top.
pub proof fn hit_ranks_are_not_better_than_ideal(
    recommended: Seq<usize>,
    relevant: Set<usize>,
    n: int,
)
    requires
        0 <= n <= recommended.len(),
        n <= usize::MAX,
    ensures
        ranks_of_hits(recommended, relevant, n).len() == num_hits(recommended, relevant, n),
        forall|j: int|
            0 <= j < ranks_of_hits(recommended, relevant, n).len() ==> j <= (
            #[trigger] ranks_of_hits(recommended, relevant, n)[j]) < n,
        forall|a: int, b: int|
            #![trigger ranks_of_hits(recommended, relevant, n)[a], ranks_of_hits(
                recommended,
                relevant,
                n,
            )[b]]
            0 <= a < b < ranks_of_hits(recommended, relevant, n).len() ==> ranks_of_hits(
                recommended,
                relevant,
                n,
            )[a] < ranks_of_hits(recommended, relevant, n)[b],
    decreases n,
{
    if n > 0 {
        hit_ranks_are_not_better_than_ideal(recommended, relevant, n - 1);
        hits_are_bounded(recommended, relevant, n - 1);
    }
}

/// What is found in the first `k` places are the relevant items that stand in one of them.
pub proof fn found_items_are_relevant_and_recommended(
    recommended: Seq<usize>,
    relevant: Set<usize>,
    k: usize,
    x: usize,
)
    ensures
        found_items(recommended, relevant, cut(recommended, k as int)).contains(x) <==> (
        relevant.contains(x) && exists|i: int|
            0 <= i < k && i < recommended.len() && #[trigger] recommended[i] == x),
{
    let n = cut(recommended, k as int);
    let list = recommended.take(n);
    if list.contains(x) {
        let i = choose|i: int| 0 <= i < list.len() && list[i] == x;
        assert(recommended[i] == x);
    }
    if exists|i: int| 0 <= i < k && i < recommended.len() && #[trigger] recommended[i] == x {
        let i = choose|i: int| 0 <= i < k && i < recommended.len() && #[trigger] recommended[i] == x;
        assert(list[i] == x);
    }
}

/// The ranks of the hits are the places of relevant items, counted from zero, ascending.
pub proof fn hit_ranks_are_places_of_relevant_items(
    recommended: Seq<usize>,
    relevant: Set<usize>,
    n: nat,
)
    requires
        n <= recommended.len(),
    ensures
        ranks_of_hits(recommended, relevant, n as int) == places(
            n,
            |i: int| relevant.contains(recommended[i]),
        ).map_values(|i: int| i as usize),
{
    lemma_collects(
        n,
        |i: int| relevant.contains(recommended[i]),
        |i: int| i as usize,
        |k: int| ranks_of_hits(recommended, relevant, k),
    );
}

/// The precision at a hit is the number of hits so far over the number of places so far: the `a`-th
/// hit, at rank `r`, both counted from zero, has `a + 1` over `r + 1`.
pub proof fn precision_at_a_hit_counts_hits_and_places(
    recommended: Seq<usize>,
    relevant: Set<usize>,
    n: nat,
)
    requires
        n <= recommended.len() <= usize::MAX,
    ensures
        ({
            let hits = places(n, |i: int| relevant.contains(recommended[i]));
            let precisions = precisions_at_hits(recommended, relevant, n as int);
            &&& precisions.len() == hits.len()
            &&& forall|a: int|
                0 <= a < hits.len() ==> (#[trigger] precisions[a]).hits == a + 1
                    && precisions[a].out_of == hits[a] + 1
        }),
    decreases n,
{
    let holds = |i: int| relevant.contains(recommended[i]);
    if n > 0 {
        let m = (n - 1) as nat;
        precision_at_a_hit_counts_hits_and_places(recommended, relevant, m);
        lemma_places_step(m, holds);
        hits_are_bounded(recommended, relevant, n as int);
        lemma_hits_are_chosen(recommended, relevant, n);
    } else {
        lemma_places_step(0, holds);
    }
}

proof fn lemma_hits_are_chosen(recommended: Seq<usize>, relevant: Set<usize>, n: nat)
    ensures
        num_hits(recommended, relevant, n as int) == places(
            n,
            |i: int| relevant.contains(recommended[i]),
        ).len(),
    decreases n,
{
    let holds = |i: int| relevant.contains(recommended[i]);
    if n > 0 {
        lemma_hits_are_chosen(recommended, relevant, (n - 1) as nat);
        lemma_places_step((n - 1) as nat, holds);
    } else {
        lemma_places_step(0, holds);
    }
}

/// The items of lists are those that stand in any of them.
pub proof fn covered_items_stand_in_a_list(lists: Seq<Vec<usize>>, n: int, x: usize)
    requires
        0 <= n <= lists.len(),
    ensures
        items_of(lists, n).contains(x) <==> exists|a: int|
            0 <= a < n && (#[trigger] lists[a])@.contains(x),
    decreases n,
{
    if n > 0 {
        covered_items_stand_in_a_list(lists, n - 1, x);
        assert(lists[n - 1]@.to_set().contains(x) <==> lists[n - 1]@.contains(x));
        if exists|a: int| 0 <= a < n && (#[trigger] lists[a])@.contains(x) {
            let a = choose|a: int| 0 <= a < n && (#[trigger] lists[a])@.contains(x);
            assert(a == n - 1 || a < n - 1);
        }
    }
}

} // verus!
