//! The item block of the weights as bytes.

use crate::matrix::Matrix;
use vstd::bytes::{spec_u64_to_le_bytes, u64_to_le_bytes};
use vstd::prelude::*;

verus! {

/// A block of a matrix as bytes, with its dimensions.
pub struct MatrixBytes {
    pub bytes: Vec<u8>,
    pub rows: usize,
    pub cols: usize,
}

/// The bytes of the first `n` entries of row `r`.
pub open spec fn row_bytes(m: Matrix<u64>, r: int, n: int) -> Seq<u8>
    decreases n,
{
    if n <= 0 {
        Seq::empty()
    } else {
        row_bytes(m, r, n - 1) + spec_u64_to_le_bytes(m.at(r, n - 1))
    }
}

/// The bytes of the first `n` rows, each of `cols` entries.
pub open spec fn rows_bytes(m: Matrix<u64>, cols: int, n: int) -> Seq<u8>
    decreases n,
{
    if n <= 0 {
        Seq::empty()
    } else {
        rows_bytes(m, cols, n - 1) + row_bytes(m, n - 1, cols)
    }
}

/// The first `num_items` rows of the weights, row by row, each entry in eight bytes with the lowest
/// first. The entries are given by their bit patterns.
pub fn s_items_row_major_le_bytes(
    bits: &Matrix<u64>,
    num_items: usize,
    num_user_features: usize,
) -> (block: MatrixBytes)
    requires
        bits.wf(),
        num_items + num_user_features <= usize::MAX,
        num_items <= bits.nrows,
        num_items + num_user_features <= bits.ncols,
    ensures
        block.rows == num_items,
        block.cols == num_items + num_user_features,
        block.bytes@ == rows_bytes(*bits, num_items + num_user_features, num_items as int),
{
    let cols: usize = num_items + num_user_features;
    let mut bytes: Vec<u8> = Vec::new();
    let mut r: usize = 0;
    while r < num_items
        invariant
            r <= num_items,
            bits.wf(),
            num_items <= bits.nrows,
            cols <= bits.ncols,
            bytes@ == rows_bytes(*bits, cols as int, r as int),
        decreases num_items - r,
    {
        let ghost before = bytes@;
        let mut c: usize = 0;
        assert(before + row_bytes(*bits, r as int, 0) =~= before);
        while c < cols
            invariant
                c <= cols,
                r < num_items,
                bits.wf(),
                num_items <= bits.nrows,
                cols <= bits.ncols,
                bytes@ == before + row_bytes(*bits, r as int, c as int),
            decreases cols - c,
        {
            let entry = u64_to_le_bytes(bits.get(r, c));
            bytes.extend_from_slice(entry.as_slice());
            assert(bytes@ =~= before + row_bytes(*bits, r as int, c + 1));
            c = c + 1;
        }
        r = r + 1;
    }
    MatrixBytes { bytes, rows: num_items, cols }
}

/// Entry `(r, c)` of the block is found at its row-major place.
pub proof fn entries_are_row_major(m: Matrix<u64>, cols: int, rows: int, r: int, c: int)
    requires
        0 <= c < cols,
        0 <= r < rows,
    ensures
        rows_bytes(m, cols, rows).len() == 8 * (cols * rows),
        0 <= 8 * (cols * r + c),
        8 * (cols * r + c) + 8 <= rows_bytes(m, cols, rows).len(),
        rows_bytes(m, cols, rows).subrange(8 * (cols * r + c), 8 * (cols * r + c) + 8)
            == spec_u64_to_le_bytes(m.at(r, c)),
    decreases rows,
{
    lemma_rows_len(m, cols, rows);
    lemma_rows_len(m, cols, rows - 1);
    lemma_row_entry(m, rows - 1, cols, if r == rows - 1 {
        c
    } else {
        0
    });
    assert(cols * (rows - 1) + cols == cols * rows) by (nonlinear_arith);
    assert(0 <= cols * r) by (nonlinear_arith)
        requires
            cols >= 0,
            r >= 0,
    ;
    let all = rows_bytes(m, cols, rows);
    let earlier = rows_bytes(m, cols, rows - 1);
    let at = 8 * (cols * r + c);
    if r == rows - 1 {
        assert(all.subrange(at, at + 8) =~= row_bytes(m, r, cols).subrange(8 * c, 8 * c + 8));
    } else {
        entries_are_row_major(m, cols, rows - 1, r, c);
        assert(all.subrange(at, at + 8) =~= earlier.subrange(at, at + 8));
    }
}

proof fn lemma_row_len(m: Matrix<u64>, r: int, n: int)
    requires
        0 <= n,
    ensures
        row_bytes(m, r, n).len() == 8 * n,
    decreases n,
{
    vstd::bytes::lemma_auto_spec_u64_to_from_le_bytes();
    if n > 0 {
        lemma_row_len(m, r, n - 1);
    }
}

proof fn lemma_rows_len(m: Matrix<u64>, cols: int, n: int)
    requires
        0 <= cols,
        0 <= n,
    ensures
        rows_bytes(m, cols, n).len() == 8 * (cols * n),
    decreases n,
{
    if n > 0 {
        lemma_rows_len(m, cols, n - 1);
        lemma_row_len(m, n - 1, cols);
        assert(cols * (n - 1) + cols == cols * n) by (nonlinear_arith);
    } else {
        assert(cols * 0 == 0) by (nonlinear_arith);
    }
}

proof fn lemma_row_entry(m: Matrix<u64>, r: int, n: int, c: int)
    requires
        0 <= c < n,
    ensures
        row_bytes(m, r, n).len() == 8 * n,
        row_bytes(m, r, n).subrange(8 * c, 8 * c + 8) == spec_u64_to_le_bytes(m.at(r, c)),
    decreases n,
{
    vstd::bytes::lemma_auto_spec_u64_to_from_le_bytes();
    lemma_row_len(m, r, n);
    lemma_row_len(m, r, n - 1);
    let all = row_bytes(m, r, n);
    if c < n - 1 {
        lemma_row_entry(m, r, n - 1, c);
        assert(all.subrange(8 * c, 8 * c + 8) =~= row_bytes(m, r, n - 1).subrange(
            8 * c,
            8 * c + 8,
        ));
    } else {
        assert(all.subrange(8 * c, 8 * c + 8) =~= spec_u64_to_le_bytes(m.at(r, c)));
    }
}

/// The entry in row `r` and column `c` of the exported block is the one that the weights, which are
/// stored column by column, have there.
pub proof fn exported_rows_are_stored_columns(
    m: Matrix<u64>,
    cols: int,
    rows: int,
    r: int,
    c: int,
)
    requires
        0 <= c < cols,
        0 <= r < rows,
    ensures
        rows_bytes(m, cols, rows).len() == 8 * cols * rows,
        rows_bytes(m, cols, rows).subrange(8 * (r * cols + c), 8 * (r * cols + c) + 8)
            == spec_u64_to_le_bytes(m.data@[c * m.nrows + r]),
{
    entries_are_row_major(m, cols, rows, r, c);
    assert(8 * (cols * rows) == 8 * cols * rows) by (nonlinear_arith);
    assert(cols * r == r * cols) by (nonlinear_arith);
}

} // verus!
