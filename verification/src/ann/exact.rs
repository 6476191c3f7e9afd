//! Exact maximum-inner-product search, the truth that approximate indices are measured against.

use crate::ann::rows;
use crate::metrics::{distinct_hits_are_found_items, hits_are_bounded, num_hits, Ratio};
use crate::ids::{index_contains, index_members};
use crate::order::comparable;
use crate::selection::{lemma_counts, lemma_folds, tally};
use crate::top_k::{candidate_scores, index_set, select_top_k, top_k};
use std::ops::{Add, Mul};
use vstd::prelude::*;
use vstd::std_specs::ops::{AddSpec, MulSpec};

verus! {

/// The inner product of the first `n` coordinates, summed from `zero` on.
pub open spec fn dot<T: Mul<Output = T> + Add<Output = T>>(
    item: Seq<T>,
    query: Seq<T>,
    zero: T,
    n: int,
) -> T
    decreases n,
{
    if n <= 0 {
        zero
    } else {
        dot(item, query, zero, n - 1).add_spec(item[n - 1].mul_spec(query[n - 1]))
    }
}

/// The number of coordinates that an item and a query have in common.
pub open spec fn common_dim<T>(item: Seq<T>, query: Seq<T>) -> int {
    if item.len() <= query.len() {
        item.len() as int
    } else {
        query.len() as int
    }
}

/// Each product and each sum of the inner product is defined.
pub open spec fn dot_defined<T: Mul<Output = T> + Add<Output = T>>(
    item: Seq<T>,
    query: Seq<T>,
    zero: T,
    n: int,
) -> bool {
    forall|j: int|
        0 <= j < n ==> (#[trigger] item[j]).mul_req(query[j]) && dot(item, query, zero, j).add_req(
            item[j].mul_spec(query[j]),
        )
}

/// The inner product of `query` with each item.
pub open spec fn dots<T: Mul<Output = T> + Add<Output = T>>(
    query: Seq<T>,
    items: Seq<Seq<T>>,
    zero: T,
) -> Seq<T> {
    items.map_values(|item: Seq<T>| dot(item, query, zero, common_dim(item, query)))
}

/// Every inner product with `query` is defined.
pub open spec fn dots_defined<T: Mul<Output = T> + Add<Output = T>>(
    query: Seq<T>,
    items: Seq<Seq<T>>,
    zero: T,
) -> bool {
    &&& T::obeys_mul_spec()
    &&& T::obeys_add_spec()
    &&& forall|i: int|
        0 <= i < items.len() ==> dot_defined(
            #[trigger] items[i],
            query,
            zero,
            common_dim(items[i], query),
        )
}

/// Computes the inner product of `query` with each item.
pub fn all_dots<T: Copy + Mul<Output = T> + Add<Output = T> + Default>(
    query: &[T],
    items: &[Vec<T>],
) -> (scores: Vec<T>)
    requires
        forall|zero: T|
            #[trigger] call_ensures(T::default, (), zero) ==> dots_defined(
                query@,
                rows(items@),
                zero,
            ),
    ensures
        exists|zero: T|
            #[trigger] call_ensures(T::default, (), zero) && scores@ == dots(
                query@,
                rows(items@),
                zero,
            ),
{
    let zero: T = T::default();
    let mut scores: Vec<T> = Vec::new();
    let mut i: usize = 0;
    while i < items.len()
        invariant
            i <= items@.len(),
            dots_defined(query@, rows(items@), zero),
            scores@ == dots(query@, rows(items@), zero).take(i as int),
        decreases items@.len() - i,
    {
        let item = &items[i];
        assert(rows(items@)[i as int] == item@);
        let mut sum: T = zero;
        let mut j: usize = 0;
        while j < item.len() && j < query.len()
            invariant
                j <= item@.len(),
                j <= query@.len(),
                T::obeys_mul_spec(),
                T::obeys_add_spec(),
                dot_defined(item@, query@, zero, common_dim(item@, query@)),
                sum == dot(item@, query@, zero, j as int),
            decreases item@.len() - j,
        {
            assert(item@[j as int].mul_req(query@[j as int]));
            sum = sum + item[j] * query[j];
            j = j + 1;
        }
        scores.push(sum);
        assert(scores@ =~= dots(query@, rows(items@), zero).take(i + 1));
        i = i + 1;
    }
    assert(scores@ =~= dots(query@, rows(items@), zero));
    scores
}

/// The `k` items with the greatest inner product with `query`: descending score, equal scores in
/// ascending position.
pub fn exact_top_k<T: PartialOrd + Copy + Mul<Output = T> + Add<Output = T> + Default>(
    query: &[T],
    items: &[Vec<T>],
    k: usize,
) -> (ranked: Vec<(usize, T)>)
    requires
        forall|zero: T|
            #[trigger] call_ensures(T::default, (), zero) ==> dots_defined(
                query@,
                rows(items@),
                zero,
            ) && comparable(
                candidate_scores(dots(query@, rows(items@), zero), Set::<usize>::empty()),
            ),
    ensures
        exists|zero: T|
            #[trigger] call_ensures(T::default, (), zero) && ranked@ == top_k(
                dots(query@, rows(items@), zero),
                Set::<usize>::empty(),
                k,
            ),
{
    let scores = all_dots(query, items);
    let none = index_set(&[]);
    assert(index_members(none) =~= Set::<usize>::empty());
    select_top_k(&scores, &none, k)
}

/// The number of neighbours among the first `n` of `exact` whose ids are in `returned`.
pub open spec fn num_recalled<T>(exact: Seq<(usize, T)>, returned: Set<usize>, n: int) -> nat
    decreases n,
{
    if n <= 0 {
        0
    } else if returned.contains(exact[n - 1].0) {
        num_recalled(exact, returned, n - 1) + 1
    } else {
        num_recalled(exact, returned, n - 1)
    }
}

/// The positions of a ranked list.
pub open spec fn ids_of<T>(ranked: Seq<(usize, T)>) -> Seq<usize> {
    ranked.map_values(|entry: (usize, T)| entry.0)
}

/// The share of the exact neighbours that `approx` holds too; all of them where there are none.
pub fn recall_at_k<T: Copy>(approx: &[(usize, T)], exact: &[(usize, T)]) -> (recall: Ratio)
    ensures
        exact@.len() == 0 ==> recall == (Ratio { hits: 1, out_of: 1 }),
        exact@.len() > 0 ==> recall.out_of == exact@.len() && recall.hits == num_recalled(
            exact@,
            ids_of(approx@).to_set(),
            exact@.len() as int,
        ),
{
    if exact.len() == 0 {
        return Ratio { hits: 1, out_of: 1 };
    }
    let mut ids: Vec<usize> = Vec::new();
    let mut i: usize = 0;
    while i < approx.len()
        invariant
            i <= approx@.len(),
            ids@ == ids_of(approx@).take(i as int),
        decreases approx@.len() - i,
    {
        ids.push(approx[i].0);
        assert(ids@ =~= ids_of(approx@).take(i + 1));
        i = i + 1;
    }
    assert(ids@ =~= ids_of(approx@));
    let returned = index_set(&ids);
    let mut hits: usize = 0;
    let mut j: usize = 0;
    while j < exact.len()
        invariant
            j <= exact@.len(),
            hits <= j,
            index_members(returned) == ids_of(approx@).to_set(),
            hits == num_recalled(exact@, ids_of(approx@).to_set(), j as int),
        decreases exact@.len() - j,
    {
        if index_contains(&returned, exact[j].0) {
            hits = hits + 1;
        }
        j = j + 1;
    }
    Ratio { hits, out_of: exact.len() }
}

/// The exact neighbours recall all of themselves: an exact index is the control of a comparison.
pub proof fn exact_neighbours_recall_all<T>(exact: Seq<(usize, T)>)
    ensures
        num_recalled(exact, ids_of(exact).to_set(), exact.len() as int) == exact.len(),
{
    lemma_recalls_own(exact, exact.len() as int);
}

proof fn lemma_recalls_own<T>(exact: Seq<(usize, T)>, n: int)
    requires
        0 <= n <= exact.len(),
    ensures
        num_recalled(exact, ids_of(exact).to_set(), n) == n,
    decreases n,
{
    if n > 0 {
        lemma_recalls_own(exact, n - 1);
        assert(ids_of(exact)[n - 1] == exact[n - 1].0);
        assert(ids_of(exact).contains(exact[n - 1].0));
    }
}

/// Of distinct exact neighbours, those count that both lists hold, however often `approx` repeats
/// one: recall is at most one.
pub proof fn recall_counts_common_neighbours<T>(approx: Seq<(usize, T)>, exact: Seq<(usize, T)>)
    requires
        ids_of(exact).no_duplicates(),
    ensures
        num_recalled(exact, ids_of(approx).to_set(), exact.len() as int) == ids_of(
            exact,
        ).to_set().intersect(ids_of(approx).to_set()).len(),
        num_recalled(exact, ids_of(approx).to_set(), exact.len() as int) <= exact.len(),
{
    let ids = ids_of(exact);
    let returned = ids_of(approx).to_set();
    let n = exact.len() as int;
    lemma_recalled_hits(exact, returned, n);
    distinct_hits_are_found_items(ids, returned, n);
    hits_are_bounded(ids, returned, n);
    assert(ids.take(n) =~= ids);
}

proof fn lemma_recalled_hits<T>(exact: Seq<(usize, T)>, returned: Set<usize>, n: int)
    requires
        0 <= n <= exact.len(),
    ensures
        num_recalled(exact, returned, n) == num_hits(ids_of(exact), returned, n),
    decreases n,
{
    if n > 0 {
        lemma_recalled_hits(exact, returned, n - 1);
        assert(ids_of(exact)[n - 1] == exact[n - 1].0);
    }
}

/// An inner product takes in one product after the other, from `zero` on, over the coordinates that
/// item and query share.
pub proof fn inner_products_sum_all_products<T: Mul<Output = T> + Add<Output = T>>(
    query: Seq<T>,
    items: Seq<Seq<T>>,
    zero: T,
    i: int,
    n: nat,
)
    requires
        0 <= i < items.len(),
        n <= items[i].len() && n <= query.len(),
        n == items[i].len() || n == query.len(),
    ensures
        dots(query, items, zero).len() == items.len(),
        dots(query, items, zero)[i] == Seq::new(
            n,
            |j: int| items[i][j].mul_spec(query[j]),
        ).fold_left(zero, |sum: T, term: T| sum.add_spec(term)),
{
    let terms = Seq::new(n, |j: int| items[i][j].mul_spec(query[j]));
    let item = items[i];
    lemma_folds(
        terms,
        zero,
        |sum: T, term: T| sum.add_spec(term),
        |k: int| dot(item, query, zero, k),
        n,
    );
    assert(terms.take(n as int) =~= terms);
}

/// Recall counts the places of the exact list whose ids the other list holds somewhere.
pub proof fn recalled_neighbours_are_counted<T>(approx: Seq<(usize, T)>, exact: Seq<(usize, T)>)
    ensures
        num_recalled(exact, ids_of(approx).to_set(), exact.len() as int) == tally(
            exact.len(),
            |i: int|
                exists|j: int| 0 <= j < approx.len() && (#[trigger] approx[j]).0 == exact[i].0,
        ),
{
    let returned = ids_of(approx).to_set();
    let holds = |i: int|
        exists|j: int| 0 <= j < approx.len() && (#[trigger] approx[j]).0 == exact[i].0;
    assert forall|i: int| #[trigger] holds(i) == returned.contains(exact[i].0) by {
        if returned.contains(exact[i].0) {
            let j = choose|j: int| 0 <= j < ids_of(approx).len() && ids_of(approx)[j] == exact[i].0;
            assert(approx[j].0 == exact[i].0);
        }
        if holds(i) {
            let j = choose|j: int| 0 <= j < approx.len() && (#[trigger] approx[j]).0 == exact[i].0;
            assert(ids_of(approx)[j] == exact[i].0);
        }
    }
    let grown = |k: int| num_recalled(exact, returned, k);
    assert forall|k: int| 0 < k <= exact.len() implies #[trigger] grown(k) == (if holds(k - 1) {
        grown(k - 1) + 1
    } else {
        grown(k - 1)
    }) by {
        assert(holds(k - 1) == returned.contains(exact[k - 1].0));
    }
    lemma_counts(exact.len(), holds, grown);
}

} // verus!
