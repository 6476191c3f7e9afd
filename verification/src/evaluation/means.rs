//! The numbers of an evaluation: the values of its terms, and their means over the users.

use crate::metrics::{
    cut, distinct_hits_are_found_items, hit_ranks_are_not_better_than_ideal, hits_are_bounded,
    num_hits, ranks_of_hits, recall_is_at_most_one, NdcgTerms, PrecisionTerms,
};
use crate::numeric::{
    mean, mean_defined, mean_of, sum, sum_defined, sum_of, sums_take_in_every_value, total,
};
use std::ops::{Add, Div};
use vstd::prelude::*;
use vstd::std_specs::ops::{AddSpec, DivSpec};

verus! {

/// Metrics at one list length, of one user or as means.
#[derive(Debug, Clone, Copy)]
pub struct MetricsAtK<V> {
    pub k: usize,
    pub precision: V,
    pub recall: V,
    pub ndcg: V,
    pub map: V,
    pub hit_rate: V,
}

/// The gain at each of `ranks`.
pub open spec fn gains_at<V>(ranks: Seq<usize>, gains: Seq<V>) -> Seq<V> {
    Seq::new(ranks.len(), |j: int| gains[ranks[j] as int])
}

/// The value of `terms`, where `gains` holds the gain of each rank.
pub open spec fn ndcg_value<V: Add<Output = V> + Div<Output = V>>(
    terms: NdcgTerms,
    gains: Seq<V>,
    zero: V,
) -> V {
    if terms.ideal_hits == 0 {
        zero
    } else {
        mean_of(
            gains_at(terms.hit_ranks@, gains),
            zero,
            sum_of(gains, zero, terms.ideal_hits as int),
        )
    }
}

/// There is a gain for each rank, and the sums and the quotient of the value are defined.
pub open spec fn ndcg_defined<V: Add<Output = V> + Div<Output = V>>(
    terms: NdcgTerms,
    gains: Seq<V>,
    zero: V,
) -> bool {
    &&& terms.ideal_hits <= gains.len()
    &&& forall|j: int|
        0 <= j < terms.hit_ranks@.len() ==> (#[trigger] terms.hit_ranks@[j]) < gains.len()
    &&& terms.ideal_hits > 0 ==> {
        &&& sum_defined(gains, zero, terms.ideal_hits as int)
        &&& mean_defined(
            gains_at(terms.hit_ranks@, gains),
            zero,
            sum_of(gains, zero, terms.ideal_hits as int),
        )
    }
}

/// The normalized discounted cumulative gain, where `gains` holds the gain of each rank.
pub fn ndcg<V: Copy + Add<Output = V> + Div<Output = V>>(
    terms: &NdcgTerms,
    gains: &[V],
    zero: V,
) -> (value: V)
    requires
        ndcg_defined(*terms, gains@, zero),
    ensures
        value == ndcg_value(*terms, gains@, zero),
{
    if terms.ideal_hits == 0 {
        return zero;
    }
    let mut found: Vec<V> = Vec::new();
    let mut j: usize = 0;
    while j < terms.hit_ranks.len()
        invariant
            j <= terms.hit_ranks@.len(),
            ndcg_defined(*terms, gains@, zero),
            found@ == gains_at(terms.hit_ranks@, gains@).take(j as int),
        decreases terms.hit_ranks@.len() - j,
    {
        found.push(gains[terms.hit_ranks[j]]);
        assert(found@ =~= gains_at(terms.hit_ranks@, gains@).take(j + 1));
        j = j + 1;
    }
    assert(found@ =~= gains_at(terms.hit_ranks@, gains@));
    let ideal: V = sum(gains, zero, terms.ideal_hits);
    mean(&found, zero, ideal)
}

/// The average precision, where `precisions` holds the value of each term and `count` stands for
/// the number of relevant items.
pub fn average_precision<V: Copy + Add<Output = V> + Div<Output = V>>(
    terms: &PrecisionTerms,
    precisions: &[V],
    zero: V,
    count: V,
) -> (value: V)
    requires
        precisions@.len() == terms.precisions@.len(),
        terms.num_relevant > 0 ==> mean_defined(precisions@, zero, count),
    ensures
        value == (if terms.num_relevant == 0 {
            zero
        } else {
            mean_of(precisions@, zero, count)
        }),
{
    if terms.num_relevant == 0 {
        zero
    } else {
        mean(precisions, zero, count)
    }
}

/// The precisions of all users at list length number `at`.
pub open spec fn precisions<V>(users: Seq<Vec<MetricsAtK<V>>>, at: int) -> Seq<V> {
    Seq::new(users.len(), |u: int| users[u]@[at].precision)
}

/// The recalls of all users at list length number `at`.
pub open spec fn recalls<V>(users: Seq<Vec<MetricsAtK<V>>>, at: int) -> Seq<V> {
    Seq::new(users.len(), |u: int| users[u]@[at].recall)
}

/// The gains of all users at list length number `at`.
pub open spec fn ndcgs<V>(users: Seq<Vec<MetricsAtK<V>>>, at: int) -> Seq<V> {
    Seq::new(users.len(), |u: int| users[u]@[at].ndcg)
}

/// The average precisions of all users at list length number `at`.
pub open spec fn maps<V>(users: Seq<Vec<MetricsAtK<V>>>, at: int) -> Seq<V> {
    Seq::new(users.len(), |u: int| users[u]@[at].map)
}

/// The hit rates of all users at list length number `at`.
pub open spec fn hit_rates<V>(users: Seq<Vec<MetricsAtK<V>>>, at: int) -> Seq<V> {
    Seq::new(users.len(), |u: int| users[u]@[at].hit_rate)
}

/// The means of all users at list length number `at`, which is `k`.
pub open spec fn mean_at<V: Add<Output = V> + Div<Output = V>>(
    users: Seq<Vec<MetricsAtK<V>>>,
    at: int,
    k: usize,
    zero: V,
    count: V,
) -> MetricsAtK<V> {
    MetricsAtK {
        k,
        precision: mean_of(precisions(users, at), zero, count),
        recall: mean_of(recalls(users, at), zero, count),
        ndcg: mean_of(ndcgs(users, at), zero, count),
        map: mean_of(maps(users, at), zero, count),
        hit_rate: mean_of(hit_rates(users, at), zero, count),
    }
}

/// The sums and quotients of the means at list length number `at` are defined.
pub open spec fn means_defined_at<V: Add<Output = V> + Div<Output = V>>(
    users: Seq<Vec<MetricsAtK<V>>>,
    at: int,
    zero: V,
    count: V,
) -> bool {
    &&& mean_defined(precisions(users, at), zero, count)
    &&& mean_defined(recalls(users, at), zero, count)
    &&& mean_defined(ndcgs(users, at), zero, count)
    &&& mean_defined(maps(users, at), zero, count)
    &&& mean_defined(hit_rates(users, at), zero, count)
}

/// Computes the means at list length number `at`, which is `k`.
fn means_at<V: Copy + Add<Output = V> + Div<Output = V>>(
    users: &[Vec<MetricsAtK<V>>],
    at: usize,
    k: usize,
    zero: V,
    count: V,
) -> (means: MetricsAtK<V>)
    requires
        forall|u: int| 0 <= u < users@.len() ==> at < (#[trigger] users@[u])@.len(),
        means_defined_at(users@, at as int, zero, count),
    ensures
        means == mean_at(users@, at as int, k, zero, count),
{
    let mut precision: Vec<V> = Vec::new();
    let mut recall: Vec<V> = Vec::new();
    let mut ndcg: Vec<V> = Vec::new();
    let mut map: Vec<V> = Vec::new();
    let mut hit_rate: Vec<V> = Vec::new();
    let mut u: usize = 0;
    while u < users.len()
        invariant
            u <= users@.len(),
            forall|u: int| 0 <= u < users@.len() ==> at < (#[trigger] users@[u])@.len(),
            precision@ =~= precisions(users@, at as int).take(u as int),
            recall@ =~= recalls(users@, at as int).take(u as int),
            ndcg@ =~= ndcgs(users@, at as int).take(u as int),
            map@ =~= maps(users@, at as int).take(u as int),
            hit_rate@ =~= hit_rates(users@, at as int).take(u as int),
        decreases users@.len() - u,
    {
        let metrics: MetricsAtK<V> = users[u][at];
        precision.push(metrics.precision);
        recall.push(metrics.recall);
        ndcg.push(metrics.ndcg);
        map.push(metrics.map);
        hit_rate.push(metrics.hit_rate);
        u = u + 1;
    }
    assert(precision@ =~= precisions(users@, at as int));
    assert(recall@ =~= recalls(users@, at as int));
    assert(ndcg@ =~= ndcgs(users@, at as int));
    assert(map@ =~= maps(users@, at as int));
    assert(hit_rate@ =~= hit_rates(users@, at as int));
    MetricsAtK {
        k,
        precision: mean(&precision, zero, count),
        recall: mean(&recall, zero, count),
        ndcg: mean(&ndcg, zero, count),
        map: mean(&map, zero, count),
        hit_rate: mean(&hit_rate, zero, count),
    }
}

/// The mean metrics over all users, one entry per list length. `users` holds the metrics of each
/// user, one entry per list length, and `count` stands for the number of users.
pub fn mean_metrics<V: Copy + Add<Output = V> + Div<Output = V>>(
    users: &[Vec<MetricsAtK<V>>],
    k_values: &[usize],
    zero: V,
    count: V,
) -> (means: Vec<MetricsAtK<V>>)
    requires
        forall|u: int| 0 <= u < users@.len() ==> (#[trigger] users@[u])@.len() == k_values@.len(),
        forall|at: int|
            0 <= at < k_values@.len() ==> #[trigger] means_defined_at(users@, at, zero, count),
    ensures
        means@ == Seq::new(
            k_values@.len(),
            |at: int| mean_at(users@, at, k_values@[at], zero, count),
        ),
{
    let mut means: Vec<MetricsAtK<V>> = Vec::new();
    let mut at: usize = 0;
    while at < k_values.len()
        invariant
            at <= k_values@.len(),
            forall|u: int|
                0 <= u < users@.len() ==> (#[trigger] users@[u])@.len() == k_values@.len(),
            forall|at: int|
                0 <= at < k_values@.len() ==> #[trigger] means_defined_at(users@, at, zero, count),
            means@.len() == at,
            forall|j: int|
                0 <= j < at ==> #[trigger] means@[j] == mean_at(
                    users@,
                    j,
                    k_values@[j],
                    zero,
                    count,
                ),
        decreases k_values@.len() - at,
    {
        assert(means_defined_at(users@, at as int, zero, count));
        means.push(means_at(users, at, k_values[at], zero, count));
        at = at + 1;
    }
    means
}

proof fn lemma_total_monotone(n: nat, smaller: spec_fn(int) -> int, greater: spec_fn(int) -> int)
    requires
        forall|j: int| 0 <= j < n ==> #[trigger] smaller(j) <= greater(j),
    ensures
        total(n, smaller) <= total(n, greater),
    decreases n,
{
    if n > 0 {
        lemma_total_monotone((n - 1) as nat, smaller, greater);
        assert(smaller(n - 1) <= greater(n - 1));
    }
}

proof fn lemma_total_grows(n: nat, m: nat, term: spec_fn(int) -> int)
    requires
        n <= m,
        forall|j: int| #[trigger] term(j) >= 0,
    ensures
        total(n, term) <= total(m, term),
    decreases m,
{
    if n < m {
        lemma_total_grows(n, (m - 1) as nat, term);
        assert(term(m - 1) >= 0);
    }
}

/// Where gains do not grow with the rank, no list without repetition has a greater gain than the
/// ideal list: NDCG is at most one.
pub proof fn ndcg_is_at_most_one(
    recommended: Seq<usize>,
    relevant: Set<usize>,
    k: usize,
    gain: spec_fn(int) -> int,
)
    requires
        recommended.no_duplicates(),
        recommended.len() <= usize::MAX,
        relevant.finite(),
        forall|r: int| #[trigger] gain(r) >= 0,
        forall|q: int, r: int| q <= r ==> #[trigger] gain(q) >= #[trigger] gain(r),
    ensures
        ({
            let ranks = ranks_of_hits(recommended, relevant, cut(recommended, k as int));
            let ideal_hits = if relevant.len() <= k {
                relevant.len()
            } else {
                k as nat
            };
            total(ranks.len(), |j: int| gain(ranks[j] as int)) <= total(ideal_hits, gain)
        }),
{
    let n = cut(recommended, k as int);
    let ranks = ranks_of_hits(recommended, relevant, n);
    let ideal_hits = if relevant.len() <= k {
        relevant.len()
    } else {
        k as nat
    };
    hit_ranks_are_not_better_than_ideal(recommended, relevant, n);
    hits_are_bounded(recommended, relevant, n);
    recall_is_at_most_one(recommended, relevant, n);
    distinct_hits_are_found_items(recommended, relevant, n);
    assert(ranks.len() == num_hits(recommended, relevant, n));
    let at_hits = |j: int| gain(ranks[j] as int);
    assert forall|j: int| 0 <= j < ranks.len() implies #[trigger] at_hits(j) <= gain(j) by {
        assert(j <= ranks[j]);
        assert(gain(j) >= gain(ranks[j] as int));
    }
    lemma_total_monotone(ranks.len(), at_hits, gain);
    lemma_total_grows(ranks.len(), ideal_hits, gain);
}

/// The value of a normalized gain: the gains at the ranks of the hits, summed, over the first gains,
/// summed, as many as there are ideal hits; zero where there is none.
pub proof fn gains_are_held_against_the_ideal<V: Add<Output = V> + Div<Output = V>>(
    terms: NdcgTerms,
    gains: Seq<V>,
    zero: V,
)
    requires
        terms.ideal_hits <= gains.len(),
    ensures
        terms.ideal_hits == 0 ==> ndcg_value(terms, gains, zero) == zero,
        terms.ideal_hits > 0 ==> ndcg_value(terms, gains, zero) == Seq::new(
            terms.hit_ranks@.len(),
            |j: int| gains[terms.hit_ranks@[j] as int],
        ).fold_left(zero, |sum: V, gain: V| sum.add_spec(gain)).div_spec(
            gains.take(terms.ideal_hits as int).fold_left(
                zero,
                |sum: V, gain: V| sum.add_spec(gain),
            ),
        ),
{
    let hits = gains_at(terms.hit_ranks@, gains);
    let ideal = sum_of(gains, zero, terms.ideal_hits as int);
    sums_take_in_every_value(hits, zero, ideal, hits.len());
    sums_take_in_every_value(gains, zero, ideal, terms.ideal_hits as nat);
    assert(hits =~= Seq::new(
        terms.hit_ranks@.len(),
        |j: int| gains[terms.hit_ranks@[j] as int],
    ));
}

/// Each mean metric is the sum of that metric over all users, over their number.
pub proof fn means_are_taken_over_all_users<V: Add<Output = V> + Div<Output = V>>(
    users: Seq<Vec<MetricsAtK<V>>>,
    at: int,
    k: usize,
    zero: V,
    count: V,
)
    ensures
        ({
            let mean = mean_at(users, at, k, zero, count);
            &&& mean.k == k
            &&& mean.precision == Seq::new(
                users.len(),
                |u: int| users[u]@[at].precision,
            ).fold_left(zero, |sum: V, value: V| sum.add_spec(value)).div_spec(count)
            &&& mean.recall == Seq::new(users.len(), |u: int| users[u]@[at].recall).fold_left(
                zero,
                |sum: V, value: V| sum.add_spec(value),
            ).div_spec(count)
            &&& mean.ndcg == Seq::new(users.len(), |u: int| users[u]@[at].ndcg).fold_left(
                zero,
                |sum: V, value: V| sum.add_spec(value),
            ).div_spec(count)
            &&& mean.map == Seq::new(users.len(), |u: int| users[u]@[at].map).fold_left(
                zero,
                |sum: V, value: V| sum.add_spec(value),
            ).div_spec(count)
            &&& mean.hit_rate == Seq::new(users.len(), |u: int| users[u]@[at].hit_rate).fold_left(
                zero,
                |sum: V, value: V| sum.add_spec(value),
            ).div_spec(count)
        }),
{
    sums_take_in_every_value(precisions(users, at), zero, count, 0);
    sums_take_in_every_value(recalls(users, at), zero, count, 0);
    sums_take_in_every_value(ndcgs(users, at), zero, count, 0);
    sums_take_in_every_value(maps(users, at), zero, count, 0);
    sums_take_in_every_value(hit_rates(users, at), zero, count, 0);
    assert(precisions(users, at) =~= Seq::new(users.len(), |u: int| users[u]@[at].precision));
    assert(recalls(users, at) =~= Seq::new(users.len(), |u: int| users[u]@[at].recall));
    assert(ndcgs(users, at) =~= Seq::new(users.len(), |u: int| users[u]@[at].ndcg));
    assert(maps(users, at) =~= Seq::new(users.len(), |u: int| users[u]@[at].map));
    assert(hit_rates(users, at) =~= Seq::new(users.len(), |u: int| users[u]@[at].hit_rate));
}

} // verus!
