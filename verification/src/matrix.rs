//! Dense matrices, stored column by column.

use vstd::prelude::*;

verus! {

/// A dense matrix; `data` holds its columns one after the other.
#[derive(Debug, Clone)]
pub struct Matrix<V> {
    pub nrows: usize,
    pub ncols: usize,
    pub data: Vec<V>,
}

/// The place of row `r` and column `c` in a matrix with `nrows` rows.
pub open spec fn place(nrows: int, r: int, c: int) -> int {
    c * nrows + r
}

impl<V> Matrix<V> {
    /// The data have the size that the dimensions say.
    pub open spec fn wf(&self) -> bool {
        self.data@.len() == self.nrows * self.ncols
    }

    /// The entry in row `r` and column `c`.
    pub open spec fn at(&self, r: int, c: int) -> V {
        self.data@[place(self.nrows as int, r, c)]
    }

    /// Row `r`.
    pub open spec fn row(&self, r: int) -> Seq<V> {
        Seq::new(self.ncols as nat, |c: int| self.at(r, c))
    }
}

/// The matrix has the given dimensions, and `entry` gives its entries.
pub open spec fn is_matrix<V>(
    m: Matrix<V>,
    nrows: int,
    ncols: int,
    entry: spec_fn(int, int) -> V,
) -> bool {
    &&& m.nrows == nrows
    &&& m.ncols == ncols
    &&& m.wf()
    &&& forall|r: int, c: int|
        0 <= r < nrows && 0 <= c < ncols ==> #[trigger] m.at(r, c) == entry(r, c)
}

/// A place inside a matrix lies inside its data.
pub proof fn lemma_place(nrows: int, ncols: int, r: int, c: int)
    requires
        0 <= r < nrows,
        0 <= c < ncols,
    ensures
        0 <= place(nrows, r, c) < nrows * ncols,
{
    assert(0 <= c * nrows + r < nrows * ncols) by (nonlinear_arith)
        requires
            0 <= r < nrows,
            0 <= c < ncols,
    ;
}

/// Different entries have different places.
pub proof fn lemma_place_injective(nrows: int, r: int, c: int, q: int, d: int)
    requires
        0 <= r < nrows,
        0 <= q < nrows,
        place(nrows, r, c) == place(nrows, q, d),
    ensures
        r == q,
        c == d,
{
    assert(c == d) by (nonlinear_arith)
        requires
            0 <= r < nrows,
            0 <= q < nrows,
            c * nrows + r == d * nrows + q,
    ;
}

/// The data hold every entry that comes before place `n`.
pub open spec fn filled<V>(
    data: Seq<V>,
    nrows: int,
    n: int,
    entry: spec_fn(int, int) -> V,
) -> bool {
    &&& data.len() == n
    &&& forall|r: int, c: int|
        #![trigger entry(r, c)]
        0 <= r < nrows && 0 <= c && place(nrows, r, c) < n ==> data[place(nrows, r, c)] == entry(
            r,
            c,
        )
}

/// One more entry.
pub proof fn lemma_fill<V>(
    data: Seq<V>,
    nrows: int,
    r: int,
    c: int,
    value: V,
    entry: spec_fn(int, int) -> V,
)
    requires
        0 <= r < nrows,
        0 <= c,
        filled(data, nrows, place(nrows, r, c), entry),
        value == entry(r, c),
    ensures
        filled(data.push(value), nrows, place(nrows, r, c) + 1, entry),
{
    assert forall|q: int, d: int|
        #![trigger entry(q, d)]
        0 <= q < nrows && 0 <= d && place(nrows, q, d) < place(nrows, r, c) + 1 implies data.push(
        value,
    )[place(nrows, q, d)] == entry(q, d) by {
        assert(0 <= d * nrows + q) by (nonlinear_arith)
            requires
                0 <= q < nrows,
                0 <= d,
        ;
        if place(nrows, q, d) == place(nrows, r, c) {
            lemma_place_injective(nrows, q, d, r, c);
        }
    }
}

/// A column is complete: the next place is the first of the next column.
pub proof fn lemma_next_column(nrows: int, c: int)
    ensures
        place(nrows, nrows, c) == place(nrows, 0, c + 1),
        place(nrows, 0, 0) == 0,
{
    assert(c * nrows + nrows == (c + 1) * nrows) by (nonlinear_arith);
    assert(0 * nrows == 0) by (nonlinear_arith);
}

/// Complete data are a matrix.
pub proof fn lemma_filled<V>(m: Matrix<V>, entry: spec_fn(int, int) -> V)
    requires
        filled(m.data@, m.nrows as int, place(m.nrows as int, 0, m.ncols as int), entry),
    ensures
        is_matrix(m, m.nrows as int, m.ncols as int, entry),
{
    let nrows = m.nrows as int;
    let ncols = m.ncols as int;
    assert(ncols * nrows == nrows * ncols) by (nonlinear_arith);
    assert forall|r: int, c: int| 0 <= r < nrows && 0 <= c < ncols implies #[trigger] m.at(r, c)
        == entry(r, c) by {
        lemma_place(nrows, ncols, r, c);
    }
}

impl<V: Copy> Matrix<V> {
    /// A matrix with `fill` everywhere.
    pub fn filled_with(nrows: usize, ncols: usize, fill: V) -> (m: Self)
        requires
            nrows * ncols <= usize::MAX,
        ensures
            is_matrix(m, nrows as int, ncols as int, |r: int, c: int| fill),
    {
        let mut data: Vec<V> = Vec::new();
        let ghost entry = |r: int, c: int| fill;
        let total: usize = nrows * ncols;
        while data.len() < total
            invariant
                data@.len() <= total,
                forall|k: int| 0 <= k < data@.len() ==> #[trigger] data@[k] == fill,
            decreases total - data@.len(),
        {
            data.push(fill);
        }
        let m = Matrix { nrows, ncols, data };
        proof {
            assert forall|r: int, c: int| 0 <= r < nrows && 0 <= c < ncols implies #[trigger] m.at(
                r,
                c,
            ) == entry(r, c) by {
                lemma_place(nrows as int, ncols as int, r, c);
            }
        }
        m
    }

    /// The entry in row `r` and column `c`.
    pub fn get(&self, r: usize, c: usize) -> (value: V)
        requires
            self.wf(),
            r < self.nrows,
            c < self.ncols,
        ensures
            value == self.at(r as int, c as int),
            value == self.data@[c * self.nrows + r],
    {
        proof {
            lemma_place(self.nrows as int, self.ncols as int, r as int, c as int);
            assert(0 <= c * self.nrows) by (nonlinear_arith);
            assert(self.data.len() == self.data@.len());
        }
        self.data[c * self.nrows + r]
    }

    /// Puts an entry in row `r` and column `c`.
    pub fn set(&mut self, r: usize, c: usize, value: V)
        requires
            old(self).wf(),
            r < old(self).nrows,
            c < old(self).ncols,
        ensures
            final(self).wf(),
            final(self).nrows == old(self).nrows,
            final(self).ncols == old(self).ncols,
            forall|q: int, d: int|
                0 <= q < old(self).nrows && 0 <= d < old(self).ncols ==> #[trigger] final(self).at(
                    q,
                    d,
                ) == (if q == r && d == c {
                    value
                } else {
                    old(self).at(q, d)
                }),
    {
        proof {
            lemma_place(self.nrows as int, self.ncols as int, r as int, c as int);
            assert(0 <= c * self.nrows) by (nonlinear_arith);
            assert(self.data.len() == self.data@.len());
        }
        let k: usize = c * self.nrows + r;
        let ghost before = *self;
        self.data.set(k, value);
        proof {
            assert forall|q: int, d: int|
                0 <= q < before.nrows && 0 <= d < before.ncols implies #[trigger] self.at(q, d) == (
            if q == r && d == c {
                value
            } else {
                before.at(q, d)
            }) by {
                lemma_place(before.nrows as int, before.ncols as int, q, d);
                if place(before.nrows as int, q, d) == k {
                    lemma_place_injective(before.nrows as int, q, d, r as int, c as int);
                }
            }
        }
    }
}

} // verus!
