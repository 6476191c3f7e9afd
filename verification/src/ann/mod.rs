//! Nearest-neighbour retrieval over item embeddings.

pub mod comparison;
pub mod exact;

use crate::ann::exact::{all_dots, dots, dots_defined};
use crate::ids::{index_contains, index_members};
use crate::numeric::total;
use crate::order::comparable;
use crate::selection::{lemma_collects, places};
use crate::top_k::{at_most, candidate_scores, index_set, select_top_k, top_k};
use std::ops::{Add, Mul};
use vstd::prelude::*;

verus! {

/// A retrieval index over item embeddings, built once and queried for the best items.
pub trait AnnBackend<T>: Sized {
    /// The index can answer `query` while leaving out `exclude`.
    spec fn answers(&self, query: Seq<T>, exclude: Seq<usize>) -> bool;

    /// The size of the index fits the machine.
    spec fn measurable(&self) -> bool;

    /// Builds the index from one embedding per item.
    fn build(items: &[Vec<T>]) -> Self;

    /// The best `k` items for `query` with their scores, without those in `exclude`.
    fn search(&self, query: &[T], k: usize, exclude: &[usize]) -> Vec<(usize, T)>
        requires
            self.answers(query@, exclude@),
    ;

    /// The size of the index in bytes.
    fn index_bytes(&self) -> usize
        requires
            self.measurable(),
    ;
}

/// The bytes of one coordinate.
pub const COORDINATE_BYTES: usize = 4;

/// The reference index: exact search.
pub struct ExactBackend<T> {
    pub items: Vec<Vec<T>>,
}

/// The coordinates of each embedding.
pub open spec fn rows<T>(items: Seq<Vec<T>>) -> Seq<Seq<T>> {
    items.map_values(|row: Vec<T>| row@)
}

/// The number of coordinates in the first `n` embeddings.
pub open spec fn num_coordinates<T>(items: Seq<Vec<T>>, n: int) -> nat
    decreases n,
{
    if n <= 0 {
        0
    } else {
        num_coordinates(items, n - 1) + items[n - 1]@.len()
    }
}

proof fn lemma_num_coordinates_grows<T>(items: Seq<Vec<T>>, n: int, m: int)
    requires
        n <= m,
    ensures
        num_coordinates(items, n) <= num_coordinates(items, m),
    decreases m - n,
{
    if n < m {
        lemma_num_coordinates_grows(items, n, m - 1);
    }
}

/// Copies a list of embeddings.
fn copy_rows<T: Copy>(items: &[Vec<T>]) -> (copy: Vec<Vec<T>>)
    ensures
        rows(copy@) == rows(items@),
{
    let mut copy: Vec<Vec<T>> = Vec::new();
    let mut i: usize = 0;
    while i < items.len()
        invariant
            i <= items@.len(),
            rows(copy@) == rows(items@).take(i as int),
        decreases items@.len() - i,
    {
        let mut row: Vec<T> = Vec::new();
        let mut j: usize = 0;
        while j < items[i].len()
            invariant
                i < items@.len(),
                j <= items@[i as int]@.len(),
                row@ == items@[i as int]@.take(j as int),
            decreases items@[i as int]@.len() - j,
        {
            row.push(items[i][j]);
            assert(row@ =~= items@[i as int]@.take(j + 1));
            j = j + 1;
        }
        assert(row@ =~= items@[i as int]@);
        let ghost before = copy@;
        copy.push(row);
        assert(rows(copy@) =~= rows(before).push(row@));
        assert(rows(copy@) =~= rows(items@).take(i + 1));
        i = i + 1;
    }
    assert(rows(items@).take(i as int) =~= rows(items@));
    copy
}

impl<T: PartialOrd + Copy + Mul<Output = T> + Add<Output = T> + Default> AnnBackend<T> for ExactBackend<
    T,
> {
    open spec fn answers(&self, query: Seq<T>, exclude: Seq<usize>) -> bool {
        forall|zero: T|
            #[trigger] call_ensures(T::default, (), zero) ==> dots_defined(
                query,
                rows(self.items@),
                zero,
            ) && comparable(
                candidate_scores(dots(query, rows(self.items@), zero), exclude.to_set()),
            )
    }

    open spec fn measurable(&self) -> bool {
        num_coordinates(self.items@, self.items@.len() as int) * COORDINATE_BYTES <= usize::MAX
    }

    fn build(items: &[Vec<T>]) -> (backend: Self)
        ensures
            rows(backend.items@) == rows(items@),
    {
        ExactBackend { items: copy_rows(items) }
    }

    fn search(&self, query: &[T], k: usize, exclude: &[usize]) -> (found: Vec<(usize, T)>)
        ensures
            exists|zero: T|
                #[trigger] call_ensures(T::default, (), zero) && found@ == top_k(
                    dots(query@, rows(self.items@), zero),
                    exclude@.to_set(),
                    k,
                ),
    {
        let excluded = index_set(exclude);
        let scores = all_dots(query, self.items.as_slice());
        select_top_k(&scores, &excluded, k)
    }

    fn index_bytes(&self) -> (bytes: usize)
        ensures
            bytes == num_coordinates(self.items@, self.items@.len() as int) * COORDINATE_BYTES,
    {
        let mut bytes: usize = 0;
        let mut i: usize = 0;
        while i < self.items.len()
            invariant
                i <= self.items@.len(),
                bytes == num_coordinates(self.items@, i as int) * COORDINATE_BYTES,
                num_coordinates(self.items@, self.items@.len() as int) * COORDINATE_BYTES
                    <= usize::MAX,
            decreases self.items@.len() - i,
        {
            proof {
                lemma_num_coordinates_grows(self.items@, i + 1, self.items@.len() as int);
            }
            bytes = bytes + self.items[i].len() * COORDINATE_BYTES;
            i = i + 1;
        }
        bytes
    }
}

/// How many neighbours to ask an approximate index for so that `k` remain after leaving out
/// `num_excluded`: their sum, but no more than there are items.
pub fn over_fetch_count(k: usize, num_excluded: usize, num_items: usize) -> (count: usize)
    ensures
        count == (if k + num_excluded <= num_items {
            k + num_excluded
        } else {
            num_items as int
        }),
{
    if k <= num_items && num_excluded <= num_items - k {
        k + num_excluded
    } else {
        num_items
    }
}

/// The neighbours among the first `n` that are not excluded, in order.
pub open spec fn not_excluded<T>(
    neighbours: Seq<(usize, T)>,
    excluded: Set<usize>,
    n: int,
) -> Seq<(usize, T)>
    decreases n,
{
    if n <= 0 {
        Seq::empty()
    } else if excluded.contains(neighbours[n - 1].0) {
        not_excluded(neighbours, excluded, n - 1)
    } else {
        not_excluded(neighbours, excluded, n - 1).push(neighbours[n - 1])
    }
}

/// The first `k` neighbours that are not excluded, in the order in which the index returned them.
pub fn keep_top<T: Copy>(neighbours: &[(usize, T)], exclude: &[usize], k: usize) -> (kept: Vec<
    (usize, T),
>)
    ensures
        kept@ == at_most(
            not_excluded(neighbours@, exclude@.to_set(), neighbours@.len() as int),
            k,
        ),
{
    let excluded = index_set(exclude);
    let ghost out = exclude@.to_set();
    let mut kept: Vec<(usize, T)> = Vec::new();
    let mut i: usize = 0;
    while i < neighbours.len() && kept.len() < k
        invariant
            i <= neighbours@.len(),
            kept@.len() <= k,
            index_members(excluded) == out,
            kept@ == not_excluded(neighbours@, out, i as int),
        decreases neighbours@.len() - i,
    {
        let neighbour = neighbours[i];
        if !index_contains(&excluded, neighbour.0) {
            kept.push(neighbour);
        }
        i = i + 1;
    }
    proof {
        lemma_not_excluded_prefix(neighbours@, out, i as int, neighbours@.len() as int);
        assert(kept@ =~= at_most(
            not_excluded(neighbours@, out, neighbours@.len() as int),
            k,
        ));
    }
    kept
}

proof fn lemma_not_excluded_prefix<T>(
    neighbours: Seq<(usize, T)>,
    excluded: Set<usize>,
    n: int,
    m: int,
)
    requires
        n <= m,
    ensures
        not_excluded(neighbours, excluded, n).len() <= not_excluded(neighbours, excluded, m).len(),
        not_excluded(neighbours, excluded, m).take(
            not_excluded(neighbours, excluded, n).len() as int,
        ) == not_excluded(neighbours, excluded, n),
    decreases m - n,
{
    if n < m {
        lemma_not_excluded_prefix(neighbours, excluded, n, m - 1);
        let short = not_excluded(neighbours, excluded, n);
        assert(not_excluded(neighbours, excluded, m).take(short.len() as int) =~= short) by {
            assert(not_excluded(neighbours, excluded, m - 1).take(short.len() as int) == short);
        }
    } else {
        let short = not_excluded(neighbours, excluded, n);
        assert(short.take(short.len() as int) =~= short);
    }
}

/// The analytic size of a quantized index: packed coordinates and one norm per item.
pub fn quantized_index_bytes(num_items: usize, dim: usize, bit_width: usize) -> (bytes: usize)
    requires
        num_items * dim * bit_width <= usize::MAX,
        num_items * dim <= usize::MAX,
        num_items * dim * bit_width / 8 + num_items * COORDINATE_BYTES <= usize::MAX,
    ensures
        bytes == num_items * dim * bit_width / 8 + num_items * COORDINATE_BYTES,
{
    assert(num_items * dim * bit_width >= 0) by (nonlinear_arith);
    let packed: usize = num_items * dim * bit_width / 8;
    packed + num_items * COORDINATE_BYTES
}

/// The neighbours kept are the first ones that are not excluded, at most `k`, in the order in which
/// the index returned them.
pub proof fn kept_neighbours_are_not_excluded<T>(
    neighbours: Seq<(usize, T)>,
    excluded: Set<usize>,
    k: usize,
)
    ensures
        ({
            let free = places(
                neighbours.len(),
                |i: int| !excluded.contains(neighbours[i].0),
            ).map_values(|i: int| neighbours[i]);
            let kept = at_most(
                not_excluded(neighbours, excluded, neighbours.len() as int),
                k,
            );
            &&& not_excluded(neighbours, excluded, neighbours.len() as int) == free
            &&& kept.len() <= k && kept.len() <= free.len()
            &&& kept.len() == k || kept.len() == free.len()
            &&& forall|a: int| 0 <= a < kept.len() ==> #[trigger] kept[a] == free[a]
        }),
{
    lemma_collects(
        neighbours.len(),
        |i: int| !excluded.contains(neighbours[i].0),
        |i: int| neighbours[i],
        |n: int| not_excluded(neighbours, excluded, n),
    );
}

/// An exact index holds the coordinates of all embeddings, four bytes each.
pub proof fn exact_indices_hold_every_coordinate<T>(items: Seq<Vec<T>>, n: nat)
    requires
        n <= items.len(),
    ensures
        num_coordinates(items, n as int) * COORDINATE_BYTES == 4 * total(
            n,
            |i: int| items[i]@.len() as int,
        ),
    decreases n,
{
    if n > 0 {
        exact_indices_hold_every_coordinate(items, (n - 1) as nat);
    }
}

/// The coordinates of an embedding are those of its list.
pub proof fn rows_are_the_lists<T>(items: Seq<Vec<T>>, i: int)
    requires
        0 <= i < items.len(),
    ensures
        rows(items).len() == items.len(),
        rows(items)[i] == items[i]@,
{
}

} // verus!
