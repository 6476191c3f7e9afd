//! Training batches of a two-tower model.

use crate::ann::rows;
use crate::data::triples::{FeatureTable, Triple, COLD_START_USER_IDX};
use crate::ids::{count_entries, count_get, count_insert, new_count_map};
use crate::selection::{lemma_counts, tally};
use vstd::prelude::*;

verus! {

/// Category lists of several entities, padded to one width and laid out row by row.
#[derive(Debug, Clone)]
pub struct PaddedCategories {
    pub ids: Vec<usize>,
    /// Which places hold a category.
    pub mask: Vec<bool>,
    pub width: usize,
}

/// The examples of one batch with the features of both sides.
pub struct TowerBatch<V> {
    pub user_idx: Vec<usize>,
    pub user_cat: PaddedCategories,
    pub user_dense: Vec<V>,
    pub item_idx: Vec<usize>,
    pub item_cat: PaddedCategories,
    pub item_dense: Vec<V>,
}

/// The first `width` places of `row`, filled up with `fill`.
pub open spec fn padded<T>(row: Seq<T>, width: int, fill: T) -> Seq<T> {
    Seq::new(
        width as nat,
        |c: int|
            if c < row.len() {
                row[c]
            } else {
                fill
            },
    )
}

/// The first `n` rows, padded, one after the other.
pub open spec fn padded_rows<T>(rows: Seq<Seq<T>>, width: int, fill: T, n: int) -> Seq<T>
    decreases n,
{
    if n <= 0 {
        Seq::empty()
    } else {
        padded_rows(rows, width, fill, n - 1) + padded(rows[n - 1], width, fill)
    }
}

/// A row of flags, one per element of `row`.
pub open spec fn flags<T>(row: Seq<T>) -> Seq<bool> {
    row.map_values(|value: T| true)
}

/// The length of the longest of the first `n` rows, and at least one.
pub open spec fn widest<T>(rows: Seq<Seq<T>>, n: int) -> nat
    decreases n,
{
    if n <= 0 {
        1
    } else {
        let earlier = widest(rows, n - 1);
        if rows[n - 1].len() > earlier {
            rows[n - 1].len()
        } else {
            earlier
        }
    }
}

/// `padded` are the category lists `lists`.
pub open spec fn are_padded(padded: PaddedCategories, lists: Seq<Seq<usize>>) -> bool {
    let n = lists.len() as int;
    &&& padded.width == widest(lists, n)
    &&& padded.ids@ == padded_rows(lists, padded.width as int, 0usize, n)
    &&& padded.mask@ == padded_rows(
        lists.map_values(|row: Seq<usize>| flags(row)),
        padded.width as int,
        false,
        n,
    )
}

/// Pads the category lists of a batch to the width of the longest, which is at least one.
pub fn pad_cat(lists: &[Vec<usize>]) -> (padded: PaddedCategories)
    ensures
        are_padded(padded, rows(lists@)),
{
    let mut width: usize = 1;
    let mut r: usize = 0;
    while r < lists.len()
        invariant
            r <= lists@.len(),
            width == widest(rows(lists@), r as int),
        decreases lists@.len() - r,
    {
        assert(rows(lists@)[r as int] == lists@[r as int]@);
        let len: usize = lists[r].len();
        if len > width {
            width = len;
        }
        r = r + 1;
    }
    let ghost all = rows(lists@);
    let ghost marks = all.map_values(|row: Seq<usize>| flags(row));
    let mut ids: Vec<usize> = Vec::new();
    let mut mask: Vec<bool> = Vec::new();
    r = 0;
    while r < lists.len()
        invariant
            r <= lists@.len(),
            all == rows(lists@),
            marks == all.map_values(|row: Seq<usize>| flags(row)),
            ids@ == padded_rows(all, width as int, 0usize, r as int),
            mask@ == padded_rows(marks, width as int, false, r as int),
        decreases lists@.len() - r,
    {
        let row = &lists[r];
        let ghost ids_before = ids@;
        let ghost mask_before = mask@;
        assert(all[r as int] == row@);
        assert(marks[r as int] == flags(row@));
        let ghost id_row = padded(row@, width as int, 0usize);
        let ghost mark_row = padded(flags(row@), width as int, false);
        assert(ids_before + id_row.take(0) =~= ids_before);
        assert(mask_before + mark_row.take(0) =~= mask_before);
        let mut c: usize = 0;
        while c < width
            invariant
                c <= width,
                id_row == padded(row@, width as int, 0usize),
                mark_row == padded(flags(row@), width as int, false),
                ids@ == ids_before + id_row.take(c as int),
                mask@ == mask_before + mark_row.take(c as int),
            decreases width - c,
        {
            if c < row.len() {
                ids.push(row[c]);
                mask.push(true);
            } else {
                ids.push(0);
                mask.push(false);
            }
            assert(ids@ =~= ids_before + id_row.take(c + 1));
            assert(mask@ =~= mask_before + mark_row.take(c + 1));
            c = c + 1;
        }
        assert(id_row.take(c as int) =~= id_row);
        assert(mark_row.take(c as int) =~= mark_row);
        r = r + 1;
    }
    PaddedCategories { ids, mask, width }
}

/// The dense vectors `vectors` one after the other; without dense columns one zero per entity.
pub open spec fn flattened<V>(vectors: Seq<Seq<V>>, dim: int, zero: V) -> Seq<V> {
    if dim == 0 {
        Seq::new(vectors.len(), |r: int| zero)
    } else {
        padded_rows(vectors, dim, zero, vectors.len() as int)
    }
}

/// Lays dense vectors out row by row.
pub fn flatten_dense<V: Copy>(vectors: &[Vec<V>], dim: usize, zero: V) -> (flat: Vec<V>)
    requires
        dim > 0 ==> forall|r: int| 0 <= r < vectors@.len() ==> (#[trigger] vectors@[r])@.len() <= dim,
    ensures
        flat@ == flattened(rows(vectors@), dim as int, zero),
{
    let ghost all = rows(vectors@);
    let mut flat: Vec<V> = Vec::new();
    let mut r: usize = 0;
    if dim == 0 {
        while r < vectors.len()
            invariant
                r <= vectors@.len(),
                flat@ == Seq::new(r as nat, |k: int| zero),
            decreases vectors@.len() - r,
        {
            flat.push(zero);
            r = r + 1;
            assert(flat@ =~= Seq::new(r as nat, |k: int| zero));
        }
        return flat;
    }
    while r < vectors.len()
        invariant
            r <= vectors@.len(),
            all == rows(vectors@),
            flat@ == padded_rows(all, dim as int, zero, r as int),
        decreases vectors@.len() - r,
    {
        let row = &vectors[r];
        let ghost before = flat@;
        assert(all[r as int] == row@);
        let ghost laid = padded(row@, dim as int, zero);
        assert(before + laid.take(0) =~= before);
        let mut c: usize = 0;
        while c < dim
            invariant
                c <= dim,
                laid == padded(row@, dim as int, zero),
                flat@ == before + laid.take(c as int),
            decreases dim - c,
        {
            if c < row.len() {
                flat.push(row[c]);
            } else {
                flat.push(zero);
            }
            assert(flat@ =~= before + laid.take(c + 1));
            c = c + 1;
        }
        assert(laid.take(c as int) =~= laid);
        r = r + 1;
    }
    flat
}

/// `examples` cut into runs of `size`, the last of which may be shorter.
pub open spec fn chunks<T>(examples: Seq<T>, size: nat) -> Seq<Seq<T>>
    decreases examples.len(),
{
    if examples.len() == 0 || size == 0 {
        Seq::empty()
    } else if examples.len() <= size {
        seq![examples]
    } else {
        seq![examples.take(size as int)] + chunks(examples.skip(size as int), size)
    }
}

/// The runs put together are the examples, and each has at most `size` of them.
pub proof fn chunks_cover_examples<T>(examples: Seq<T>, size: nat)
    requires
        size > 0,
    ensures
        chunks(examples, size).flatten() == examples,
        forall|b: int|
            0 <= b < chunks(examples, size).len() ==> 0 < (#[trigger] chunks(
                examples,
                size,
            )[b]).len() <= size,
    decreases examples.len(),
{
    let all = chunks(examples, size);
    if examples.len() == 0 {
        assert(all.flatten() =~= examples);
    } else if examples.len() <= size {
        assert(all.drop_first() =~= Seq::empty());
        assert(all.drop_first().flatten() =~= Seq::empty());
        assert(all.flatten() =~= examples);
    } else {
        let rest = examples.skip(size as int);
        chunks_cover_examples(rest, size);
        assert(all.drop_first() =~= chunks(rest, size));
        assert(all.flatten() =~= examples);
        assert forall|b: int| 0 <= b < all.len() implies 0 < (#[trigger] all[b]).len() <= size by {
            if b > 0 {
                assert(all[b] == chunks(rest, size)[b - 1]);
            }
        }
    }
}

/// The category lists of the users of `examples`.
pub open spec fn user_lists<V>(examples: Seq<Triple>, table: FeatureTable<V>) -> Seq<Seq<usize>> {
    examples.map_values(|t: Triple| table.cat@[t.user_idx as int]@)
}

/// The category lists of the items of `examples`.
pub open spec fn item_lists<V>(examples: Seq<Triple>, table: FeatureTable<V>) -> Seq<Seq<usize>> {
    examples.map_values(|t: Triple| table.cat@[t.item_idx as int]@)
}

/// The dense vectors of the users of `examples`.
pub open spec fn user_vectors<V>(examples: Seq<Triple>, table: FeatureTable<V>) -> Seq<Seq<V>> {
    examples.map_values(|t: Triple| table.dense@[t.user_idx as int]@)
}

/// The dense vectors of the items of `examples`.
pub open spec fn item_vectors<V>(examples: Seq<Triple>, table: FeatureTable<V>) -> Seq<Seq<V>> {
    examples.map_values(|t: Triple| table.dense@[t.item_idx as int]@)
}

/// `batch` holds `examples` and their features.
pub open spec fn is_batch<V>(
    batch: TowerBatch<V>,
    examples: Seq<Triple>,
    user_ft: FeatureTable<V>,
    item_ft: FeatureTable<V>,
    zero: V,
) -> bool {
    &&& batch.user_idx@ == examples.map_values(|t: Triple| t.user_idx)
    &&& batch.item_idx@ == examples.map_values(|t: Triple| t.item_idx)
    &&& are_padded(batch.user_cat, user_lists(examples, user_ft))
    &&& are_padded(batch.item_cat, item_lists(examples, item_ft))
    &&& batch.user_dense@ == flattened(
        user_vectors(examples, user_ft),
        user_ft.dense_dim as int,
        zero,
    )
    &&& batch.item_dense@ == flattened(
        item_vectors(examples, item_ft),
        item_ft.dense_dim as int,
        zero,
    )
}

/// The tables have rows for every example, with dense vectors of at most their dimension.
pub open spec fn tables_cover<V>(
    examples: Seq<Triple>,
    user_ft: FeatureTable<V>,
    item_ft: FeatureTable<V>,
) -> bool {
    &&& user_ft.cat@.len() == user_ft.dense@.len()
    &&& item_ft.cat@.len() == item_ft.dense@.len()
    &&& forall|k: int|
        0 <= k < examples.len() ==> (#[trigger] examples[k]).user_idx < user_ft.cat@.len()
            && examples[k].item_idx < item_ft.cat@.len()
    &&& forall|e: int|
        0 <= e < user_ft.dense@.len() ==> (#[trigger] user_ft.dense@[e])@.len()
            <= user_ft.dense_dim
    &&& forall|e: int|
        0 <= e < item_ft.dense@.len() ==> (#[trigger] item_ft.dense@[e])@.len()
            <= item_ft.dense_dim
}

/// A copy of a list.
fn copy_list<T: Copy>(list: &Vec<T>) -> (copy: Vec<T>)
    ensures
        copy@ == list@,
{
    let mut copy: Vec<T> = Vec::new();
    let mut i: usize = 0;
    while i < list.len()
        invariant
            i <= list@.len(),
            copy@ == list@.take(i as int),
        decreases list@.len() - i,
    {
        copy.push(list[i]);
        assert(copy@ =~= list@.take(i + 1));
        i = i + 1;
    }
    assert(copy@ =~= list@);
    copy
}

/// The batch of the examples from `lo` to `hi`.
fn make_batch<V: Copy>(
    examples: &[Triple],
    lo: usize,
    hi: usize,
    user_ft: &FeatureTable<V>,
    item_ft: &FeatureTable<V>,
    zero: V,
) -> (batch: TowerBatch<V>)
    requires
        lo <= hi <= examples@.len(),
        tables_cover(examples@, *user_ft, *item_ft),
    ensures
        is_batch(batch, examples@.subrange(lo as int, hi as int), *user_ft, *item_ft, zero),
{
    let ghost part = examples@.subrange(lo as int, hi as int);
    let mut user_idx: Vec<usize> = Vec::new();
    let mut item_idx: Vec<usize> = Vec::new();
    let mut user_cats: Vec<Vec<usize>> = Vec::new();
    let mut item_cats: Vec<Vec<usize>> = Vec::new();
    let mut user_rows: Vec<Vec<V>> = Vec::new();
    let mut item_rows: Vec<Vec<V>> = Vec::new();
    let mut i: usize = lo;
    while i < hi
        invariant
            lo <= i <= hi <= examples@.len(),
            part == examples@.subrange(lo as int, hi as int),
            tables_cover(examples@, *user_ft, *item_ft),
            user_idx@ == part.map_values(|t: Triple| t.user_idx).take(i - lo),
            item_idx@ == part.map_values(|t: Triple| t.item_idx).take(i - lo),
            rows(user_cats@) == user_lists(part, *user_ft).take(i - lo),
            rows(item_cats@) == item_lists(part, *item_ft).take(i - lo),
            rows(user_rows@) == user_vectors(part, *user_ft).take(i - lo),
            rows(item_rows@) == item_vectors(part, *item_ft).take(i - lo),
            forall|r: int|
                0 <= r < user_rows@.len() ==> (#[trigger] user_rows@[r])@.len()
                    <= user_ft.dense_dim,
            forall|r: int|
                0 <= r < item_rows@.len() ==> (#[trigger] item_rows@[r])@.len()
                    <= item_ft.dense_dim,
        decreases hi - i,
    {
        let t = examples[i];
        assert(part[i - lo] == t);
        let ghost at = i - lo;
        user_idx.push(t.user_idx);
        item_idx.push(t.item_idx);
        let ghost before = (
            rows(user_cats@),
            rows(item_cats@),
            rows(user_rows@),
            rows(item_rows@),
        );
        assert(user_ft.dense@[t.user_idx as int]@.len() <= user_ft.dense_dim);
        assert(item_ft.dense@[t.item_idx as int]@.len() <= item_ft.dense_dim);
        user_cats.push(copy_list(&user_ft.cat[t.user_idx]));
        item_cats.push(copy_list(&item_ft.cat[t.item_idx]));
        user_rows.push(copy_list(&user_ft.dense[t.user_idx]));
        item_rows.push(copy_list(&item_ft.dense[t.item_idx]));
        proof {
            assert(user_idx@ =~= part.map_values(|t: Triple| t.user_idx).take(at + 1));
            assert(item_idx@ =~= part.map_values(|t: Triple| t.item_idx).take(at + 1));
            assert(rows(user_cats@) =~= before.0.push(user_ft.cat@[t.user_idx as int]@));
            assert(rows(item_cats@) =~= before.1.push(item_ft.cat@[t.item_idx as int]@));
            assert(rows(user_rows@) =~= before.2.push(user_ft.dense@[t.user_idx as int]@));
            assert(rows(item_rows@) =~= before.3.push(item_ft.dense@[t.item_idx as int]@));
            assert(rows(user_cats@) =~= user_lists(part, *user_ft).take(at + 1));
            assert(rows(item_cats@) =~= item_lists(part, *item_ft).take(at + 1));
            assert(rows(user_rows@) =~= user_vectors(part, *user_ft).take(at + 1));
            assert(rows(item_rows@) =~= item_vectors(part, *item_ft).take(at + 1));
        }
        i = i + 1;
    }
    proof {
        assert(user_idx@ =~= part.map_values(|t: Triple| t.user_idx));
        assert(item_idx@ =~= part.map_values(|t: Triple| t.item_idx));
        assert(rows(user_cats@) =~= user_lists(part, *user_ft));
        assert(rows(item_cats@) =~= item_lists(part, *item_ft));
        assert(rows(user_rows@) =~= user_vectors(part, *user_ft));
        assert(rows(item_rows@) =~= item_vectors(part, *item_ft));
    }
    TowerBatch {
        user_idx,
        user_cat: pad_cat(&user_cats),
        user_dense: flatten_dense(&user_rows, user_ft.dense_dim, zero),
        item_idx,
        item_cat: pad_cat(&item_cats),
        item_dense: flatten_dense(&item_rows, item_ft.dense_dim, zero),
    }
}

/// The size of a batch: the one asked for, and at least one.
pub open spec fn at_least_one(size: usize) -> nat {
    if size == 0 {
        1
    } else {
        size as nat
    }
}

/// Builds the training batches: runs of `batch_size` examples with the features of both sides.
pub fn make_batches<V: Copy>(
    examples: &[Triple],
    user_ft: &FeatureTable<V>,
    item_ft: &FeatureTable<V>,
    batch_size: usize,
    zero: V,
) -> (batches: Vec<TowerBatch<V>>)
    requires
        tables_cover(examples@, *user_ft, *item_ft),
    ensures
        batches@.len() == chunks(examples@, at_least_one(batch_size)).len(),
        forall|b: int|
            0 <= b < batches@.len() ==> is_batch(
                #[trigger] batches@[b],
                chunks(examples@, at_least_one(batch_size))[b],
                *user_ft,
                *item_ft,
                zero,
            ),
{
    let size: usize = if batch_size == 0 {
        1
    } else {
        batch_size
    };
    let ghost all = chunks(examples@, size as nat);
    let mut batches: Vec<TowerBatch<V>> = Vec::new();
    let mut lo: usize = 0;
    assert(examples@.skip(0) =~= examples@);
    assert(all.skip(0) =~= all);
    while lo < examples.len()
        invariant
            lo <= examples@.len(),
            size > 0,
            tables_cover(examples@, *user_ft, *item_ft),
            all == chunks(examples@, size as nat),
            batches@.len() <= all.len(),
            all.skip(batches@.len() as int) == chunks(examples@.skip(lo as int), size as nat),
            forall|b: int|
                0 <= b < batches@.len() ==> is_batch(
                    #[trigger] batches@[b],
                    all[b],
                    *user_ft,
                    *item_ft,
                    zero,
                ),
        decreases examples@.len() - lo,
    {
        let left: usize = examples.len() - lo;
        let step: usize = if size < left {
            size
        } else {
            left
        };
        let hi: usize = lo + step;
        let ghost rest = examples@.skip(lo as int);
        let ghost done = batches@.len() as int;
        proof {
            assert(rest.len() == left);
            assert(all.skip(done) == chunks(rest, size as nat));
            assert(chunks(rest, size as nat).len() > 0);
            assert(all.skip(done)[0] == all[done]);
            if left <= size {
                assert(rest =~= examples@.subrange(lo as int, hi as int));
                assert(all.skip(done + 1) =~= Seq::empty());
            } else {
                assert(rest.take(size as int) =~= examples@.subrange(lo as int, hi as int));
                assert(rest.skip(size as int) =~= examples@.skip(hi as int));
                assert(all.skip(done + 1) =~= all.skip(done).skip(1));
                assert(chunks(rest, size as nat).skip(1) =~= chunks(
                    rest.skip(size as int),
                    size as nat,
                ));
            }
        }
        let batch = make_batch(examples, lo, hi, user_ft, item_ft, zero);
        batches.push(batch);
        proof {
            if left <= size {
                assert(examples@.skip(hi as int) =~= Seq::empty());
            }
        }
        lo = hi;
    }
    proof {
        assert(examples@.skip(lo as int) =~= Seq::empty());
        assert(all.skip(batches@.len() as int).len() == 0);
    }
    batches
}

/// The number of occurrences of `item` among the first `n` items.
pub open spec fn occurrences(items: Seq<usize>, item: usize, n: int) -> nat
    decreases n,
{
    if n <= 0 {
        0
    } else if items[n - 1] == item {
        occurrences(items, item, n - 1) + 1
    } else {
        occurrences(items, item, n - 1)
    }
}

proof fn lemma_occurrences(items: Seq<usize>, item: usize, n: int)
    requires
        0 <= n <= items.len(),
    ensures
        occurrences(items, item, n) <= n,
        occurrences(items, item, n) > 0 <==> exists|j: int|
            0 <= j < n && #[trigger] items[j] == item,
    decreases n,
{
    if n > 0 {
        lemma_occurrences(items, item, n - 1);
        if items[n - 1] == item {
            assert(0 <= n - 1 < n);
        }
    }
}

/// For each place of a batch, how often its item occurs in the batch. The popularity correction
/// subtracts the logarithm of that share of the batch.
pub fn item_frequencies(items: &[usize]) -> (counts: Vec<usize>)
    ensures
        counts@.len() == items@.len(),
        forall|j: int|
            0 <= j < items@.len() ==> #[trigger] counts@[j] == occurrences(
                items@,
                items@[j],
                items@.len() as int,
            ),
{
    let mut by_item = new_count_map();
    let mut i: usize = 0;
    while i < items.len()
        invariant
            i <= items@.len(),
            forall|item: usize|
                #[trigger] count_entries(by_item).dom().contains(item) <==> occurrences(
                    items@,
                    item,
                    i as int,
                ) > 0,
            forall|item: usize| #[trigger]
                count_entries(by_item).dom().contains(item) ==> count_entries(by_item)[item]
                    == occurrences(items@, item, i as int),
        decreases items@.len() - i,
    {
        let item: usize = items[i];
        proof {
            lemma_occurrences(items@, item, i as int);
        }
        let count: usize = match count_get(&by_item, item) {
            Some(count) => count,
            None => 0,
        };
        assert(count == occurrences(items@, item, i as int)) by {
            assert(count_entries(by_item).dom().contains(item) <==> occurrences(
                items@,
                item,
                i as int,
            ) > 0);
        }
        count_insert(&mut by_item, item, count + 1);
        i = i + 1;
    }
    let mut counts: Vec<usize> = Vec::new();
    let mut j: usize = 0;
    while j < items.len()
        invariant
            j <= items@.len(),
            i == items@.len(),
            forall|item: usize|
                #[trigger] count_entries(by_item).dom().contains(item) <==> occurrences(
                    items@,
                    item,
                    i as int,
                ) > 0,
            forall|item: usize| #[trigger]
                count_entries(by_item).dom().contains(item) ==> count_entries(by_item)[item]
                    == occurrences(items@, item, i as int),
            counts@.len() == j,
            forall|k: int|
                0 <= k < j ==> #[trigger] counts@[k] == occurrences(
                    items@,
                    items@[k],
                    items@.len() as int,
                ),
        decreases items@.len() - j,
    {
        proof {
            assert(count_entries(by_item).dom().contains(items@[j as int]) <==> occurrences(
                items@,
                items@[j as int],
                i as int,
            ) > 0);
        }
        let count: usize = match count_get(&by_item, items[j]) {
            Some(count) => count,
            None => 0,
        };
        counts.push(count);
        j = j + 1;
    }
    counts
}

/// Row `i` of the mask: the other places of the batch that hold the same item.
pub open spec fn repeats_of(items: Seq<usize>, i: int) -> Seq<bool> {
    Seq::new(items.len(), |j: int| i != j && items[i] == items[j])
}

/// The first `n` rows of the mask, one after the other.
pub open spec fn repeat_rows(items: Seq<usize>, n: int) -> Seq<bool>
    decreases n,
{
    if n <= 0 {
        Seq::empty()
    } else {
        repeat_rows(items, n - 1) + repeats_of(items, n - 1)
    }
}

/// Marks, row by row, the pairs of different places with the same item: such a pair is no true
/// negative.
pub fn false_negatives(items: &[usize]) -> (mask: Vec<bool>)
    ensures
        mask@ == repeat_rows(items@, items@.len() as int),
{
    let mut mask: Vec<bool> = Vec::new();
    let mut i: usize = 0;
    while i < items.len()
        invariant
            i <= items@.len(),
            mask@ == repeat_rows(items@, i as int),
        decreases items@.len() - i,
    {
        let ghost before = mask@;
        let ghost row = repeats_of(items@, i as int);
        let mut j: usize = 0;
        assert(before + row.take(0) =~= before);
        while j < items.len()
            invariant
                i < items@.len(),
                j <= items@.len(),
                row == repeats_of(items@, i as int),
                mask@ == before + row.take(j as int),
            decreases items@.len() - j,
        {
            mask.push(i != j && items[i] == items[j]);
            assert(mask@ =~= before + row.take(j + 1));
            j = j + 1;
        }
        assert(row.take(j as int) =~= row);
        i = i + 1;
    }
    mask
}

/// The mask is symmetric, and no place is masked against itself.
pub proof fn false_negatives_are_symmetric(items: Seq<usize>, i: int, j: int)
    requires
        0 <= i < items.len(),
        0 <= j < items.len(),
    ensures
        repeats_of(items, i)[j] == repeats_of(items, j)[i],
        !repeats_of(items, i)[i],
{
}

/// The user rows of a batch with the dropped ones replaced by the cold-start row.
pub open spec fn after_dropout(user_idx: Seq<usize>, dropped: Seq<bool>) -> Seq<usize> {
    Seq::new(
        user_idx.len(),
        |i: int|
            if dropped[i] {
                COLD_START_USER_IDX
            } else {
                user_idx[i]
            },
    )
}

/// Replaces the dropped users of a batch by the cold-start row, so that it learns from them.
pub fn drop_ids(user_idx: &[usize], dropped: &[bool]) -> (ids: Vec<usize>)
    requires
        dropped@.len() == user_idx@.len(),
    ensures
        ids@ == after_dropout(user_idx@, dropped@),
{
    let mut ids: Vec<usize> = Vec::new();
    let mut i: usize = 0;
    while i < user_idx.len()
        invariant
            i <= user_idx@.len(),
            dropped@.len() == user_idx@.len(),
            ids@ == after_dropout(user_idx@, dropped@).take(i as int),
        decreases user_idx@.len() - i,
    {
        if dropped[i] {
            ids.push(COLD_START_USER_IDX);
        } else {
            ids.push(user_idx[i]);
        }
        assert(ids@ =~= after_dropout(user_idx@, dropped@).take(i + 1));
        i = i + 1;
    }
    assert(ids@ =~= after_dropout(user_idx@, dropped@));
    ids
}

/// Padded rows lie one after the other: place `c` of row `r` holds the element of the row there, and
/// the fill behind its end.
pub proof fn padded_rows_lie_row_by_row<T>(
    rows: Seq<Seq<T>>,
    width: int,
    fill: T,
    n: int,
    r: int,
    c: int,
)
    requires
        0 <= n <= rows.len(),
        0 <= width,
    ensures
        padded_rows(rows, width, fill, n).len() == n * width,
        0 <= r < n && 0 <= c < width ==> {
            &&& 0 <= r * width + c < n * width
            &&& padded_rows(rows, width, fill, n)[r * width + c] == (if c < rows[r].len() {
                rows[r][c]
            } else {
                fill
            })
        },
    decreases n,
{
    if n > 0 {
        padded_rows_lie_row_by_row(rows, width, fill, n - 1, r, c);
        assert((n - 1) * width + width == n * width) by (nonlinear_arith);
        if 0 <= r < n && 0 <= c < width {
            assert(0 <= r * width) by (nonlinear_arith)
                requires
                    0 <= r,
                    0 <= width,
            ;
            if r < n - 1 {
                assert(r * width + width <= (n - 1) * width) by (nonlinear_arith)
                    requires
                        r + 1 <= n - 1,
                        0 <= width,
                ;
            }
        }
    } else {
        assert(n * width == 0) by (nonlinear_arith)
            requires
                n == 0,
        ;
    }
}

/// The width of padded lists is at least one, at least the length of each list, and no greater than
/// needed for that.
pub proof fn the_widest_row_gives_the_width<T>(rows: Seq<Seq<T>>, n: int)
    requires
        0 <= n <= rows.len(),
    ensures
        widest(rows, n) >= 1,
        forall|r: int| 0 <= r < n ==> (#[trigger] rows[r]).len() <= widest(rows, n),
        widest(rows, n) == 1 || exists|r: int|
            0 <= r < n && (#[trigger] rows[r]).len() == widest(rows, n),
    decreases n,
{
    if n > 0 {
        the_widest_row_gives_the_width(rows, n - 1);
        if widest(rows, n) == widest(rows, n - 1) && widest(rows, n) != 1 {
            let r = choose|r: int|
                0 <= r < n - 1 && (#[trigger] rows[r]).len() == widest(rows, n - 1);
            assert(rows[r].len() == widest(rows, n));
        }
    }
}

/// Padded category lists: place `c` of row `r` is marked exactly where the list reaches it, and holds
/// the category there, and zero elsewhere.
pub proof fn padding_is_marked(padded: PaddedCategories, lists: Seq<Seq<usize>>, r: int, c: int)
    requires
        are_padded(padded, lists),
        0 <= r < lists.len(),
        0 <= c < padded.width,
    ensures
        padded.ids@.len() == lists.len() * padded.width,
        padded.mask@.len() == lists.len() * padded.width,
        padded.mask@[r * padded.width + c] == (c < lists[r].len()),
        c < lists[r].len() ==> padded.ids@[r * padded.width + c] == lists[r][c],
        c >= lists[r].len() ==> padded.ids@[r * padded.width + c] == 0,
        padded.width >= 1,
        lists[r].len() <= padded.width,
{
    let n = lists.len() as int;
    let marks = lists.map_values(|row: Seq<usize>| flags(row));
    padded_rows_lie_row_by_row(lists, padded.width as int, 0usize, n, r, c);
    padded_rows_lie_row_by_row(marks, padded.width as int, false, n, r, c);
    the_widest_row_gives_the_width(lists, n);
    assert(marks[r] == flags(lists[r]));
}

/// Dense vectors lie one after the other, each filled up with zeros to the dimension; without a
/// dimension there is one zero for each.
pub proof fn dense_rows_lie_row_by_row<V>(
    vectors: Seq<Seq<V>>,
    dim: int,
    zero: V,
    r: int,
    c: int,
)
    requires
        0 <= dim,
        0 <= r < vectors.len(),
    ensures
        dim == 0 ==> flattened(vectors, dim, zero).len() == vectors.len() && flattened(
            vectors,
            dim,
            zero,
        )[r] == zero,
        dim > 0 ==> flattened(vectors, dim, zero).len() == vectors.len() * dim,
        0 <= c < dim && c < vectors[r].len() ==> flattened(vectors, dim, zero)[r * dim + c]
            == vectors[r][c],
        0 <= c < dim && c >= vectors[r].len() ==> flattened(vectors, dim, zero)[r * dim + c]
            == zero,
{
    padded_rows_lie_row_by_row(vectors, dim, zero, vectors.len() as int, r, c);
}

/// The rows of a batch are those of its examples: the indices of user and item, and their own
/// categories and dense features.
pub proof fn batch_rows_belong_to_examples<V>(
    batch: TowerBatch<V>,
    examples: Seq<Triple>,
    user_ft: FeatureTable<V>,
    item_ft: FeatureTable<V>,
    zero: V,
    k: int,
)
    requires
        is_batch(batch, examples, user_ft, item_ft, zero),
        0 <= k < examples.len(),
    ensures
        batch.user_idx@.len() == examples.len(),
        batch.item_idx@.len() == examples.len(),
        batch.user_idx@[k] == examples[k].user_idx,
        batch.item_idx@[k] == examples[k].item_idx,
        ({
            let cats = user_ft.cat@[examples[k].user_idx as int]@;
            let width = batch.user_cat.width as int;
            forall|c: int|
                0 <= c < width ==> (#[trigger] batch.user_cat.mask@[k * width + c] <==> c
                    < cats.len())
        }),
        ({
            let cats = user_ft.cat@[examples[k].user_idx as int]@;
            let width = batch.user_cat.width as int;
            forall|c: int|
                0 <= c < cats.len() ==> #[trigger] batch.user_cat.ids@[k * width + c] == cats[c]
        }),
        ({
            let cats = item_ft.cat@[examples[k].item_idx as int]@;
            let width = batch.item_cat.width as int;
            forall|c: int|
                0 <= c < width ==> (#[trigger] batch.item_cat.mask@[k * width + c] <==> c
                    < cats.len())
        }),
        ({
            let cats = item_ft.cat@[examples[k].item_idx as int]@;
            let width = batch.item_cat.width as int;
            forall|c: int|
                0 <= c < cats.len() ==> #[trigger] batch.item_cat.ids@[k * width + c] == cats[c]
        }),
        ({
            let dense = user_ft.dense@[examples[k].user_idx as int]@;
            let dim = user_ft.dense_dim as int;
            forall|c: int|
                0 <= c < dim && c < dense.len() ==> #[trigger] batch.user_dense@[k * dim + c]
                    == dense[c]
        }),
        ({
            let dense = item_ft.dense@[examples[k].item_idx as int]@;
            let dim = item_ft.dense_dim as int;
            forall|c: int|
                0 <= c < dim && c < dense.len() ==> #[trigger] batch.item_dense@[k * dim + c]
                    == dense[c]
        }),
{
    let users = user_lists(examples, user_ft);
    let items = item_lists(examples, item_ft);
    assert(users[k] == user_ft.cat@[examples[k].user_idx as int]@);
    assert(items[k] == item_ft.cat@[examples[k].item_idx as int]@);
    let (uw, iw) = (batch.user_cat.width as int, batch.item_cat.width as int);
    the_widest_row_gives_the_width(users, users.len() as int);
    the_widest_row_gives_the_width(items, items.len() as int);
    assert forall|c: int| 0 <= c < uw implies (#[trigger] batch.user_cat.mask@[k * uw + c] <==> c
        < users[k].len()) by {
        padding_is_marked(batch.user_cat, users, k, c);
    }
    assert forall|c: int| 0 <= c < users[k].len() implies #[trigger] batch.user_cat.ids@[k * uw + c]
        == users[k][c] by {
        padding_is_marked(batch.user_cat, users, k, c);
    }
    assert forall|c: int| 0 <= c < iw implies (#[trigger] batch.item_cat.mask@[k * iw + c] <==> c
        < items[k].len()) by {
        padding_is_marked(batch.item_cat, items, k, c);
    }
    assert forall|c: int| 0 <= c < items[k].len() implies #[trigger] batch.item_cat.ids@[k * iw + c]
        == items[k][c] by {
        padding_is_marked(batch.item_cat, items, k, c);
    }
    let (ud, id) = (user_ft.dense_dim as int, item_ft.dense_dim as int);
    let (uv, iv) = (user_vectors(examples, user_ft), item_vectors(examples, item_ft));
    assert forall|c: int| 0 <= c < ud && c < uv[k].len() implies #[trigger] batch.user_dense@[k * ud
        + c] == uv[k][c] by {
        dense_rows_lie_row_by_row(uv, ud, zero, k, c);
    }
    assert forall|c: int| 0 <= c < id && c < iv[k].len() implies #[trigger] batch.item_dense@[k * id
        + c] == iv[k][c] by {
        dense_rows_lie_row_by_row(iv, id, zero, k, c);
    }
}

/// Run `b` starts `b` times the size behind the first example and holds the next ones, as many as
/// the size or as are left.
pub proof fn runs_are_consecutive<T>(examples: Seq<T>, size: nat, b: int)
    requires
        size > 0,
        0 <= b,
        b * size < examples.len(),
    ensures
        0 <= b * size,
        b < chunks(examples, size).len(),
        b * size + size <= examples.len() ==> chunks(examples, size)[b] == examples.subrange(
            b * size,
            b * size + size,
        ),
        b * size + size > examples.len() ==> chunks(examples, size)[b] == examples.subrange(
            b * size,
            examples.len() as int,
        ) && chunks(examples, size).len() == b + 1,
    decreases examples.len(),
{
    assert(0 <= b * size) by (nonlinear_arith)
        requires
            0 <= b,
    ;
    if examples.len() <= size {
        assert(b == 0) by (nonlinear_arith)
            requires
                0 <= b,
                b * size < examples.len(),
                examples.len() <= size,
        ;
        assert(examples.subrange(0, examples.len() as int) =~= examples);
    } else {
        let rest = examples.skip(size as int);
        if b == 0 {
            assert(0 * size == 0) by (nonlinear_arith);
            assert(examples.take(size as int) =~= examples.subrange(0, size as int));
        } else {
            assert((b - 1) * size + size == b * size) by (nonlinear_arith);
            runs_are_consecutive(rest, size, b - 1);
            assert(chunks(examples, size)[b] == chunks(rest, size)[b - 1]);
            if b * size + size <= examples.len() {
                assert(rest.subrange((b - 1) * size, (b - 1) * size + size) =~= examples.subrange(
                    b * size,
                    b * size + size,
                ));
            } else {
                assert(rest.subrange((b - 1) * size, rest.len() as int) =~= examples.subrange(
                    b * size,
                    examples.len() as int,
                ));
            }
        }
    }
}

/// An item's frequency is the number of places that hold it.
pub proof fn frequencies_count_places(items: Seq<usize>, item: usize)
    ensures
        occurrences(items, item, items.len() as int) == tally(
            items.len(),
            |j: int| items[j] == item,
        ),
{
    lemma_counts(
        items.len(),
        |j: int| items[j] == item,
        |k: int| occurrences(items, item, k),
    );
}

/// The mask lies row by row and marks exactly the pairs of different places with the same item.
pub proof fn masked_pairs_share_their_item(items: Seq<usize>, n: int, i: int, j: int)
    requires
        0 <= i < n <= items.len(),
        0 <= j < items.len(),
    ensures
        repeat_rows(items, n).len() == n * items.len(),
        0 <= i * items.len() + j < n * items.len(),
        repeat_rows(items, n)[i * items.len() + j] <==> i != j && items[i] == items[j],
    decreases n,
{
    let len = items.len() as int;
    lemma_mask_len(items, n);
    lemma_mask_len(items, n - 1);
    assert((n - 1) * len + len == n * len) by (nonlinear_arith);
    assert(0 <= i * len) by (nonlinear_arith)
        requires
            0 <= i,
            0 <= len,
    ;
    if i < n - 1 {
        masked_pairs_share_their_item(items, n - 1, i, j);
    } else {
        assert(i * len == (n - 1) * len);
    }
}

proof fn lemma_mask_len(items: Seq<usize>, n: int)
    requires
        0 <= n <= items.len(),
    ensures
        repeat_rows(items, n).len() == n * items.len(),
    decreases n,
{
    let len = items.len() as int;
    if n > 0 {
        lemma_mask_len(items, n - 1);
        assert((n - 1) * len + len == n * len) by (nonlinear_arith);
    } else {
        assert(n * len == 0) by (nonlinear_arith)
            requires
                n == 0,
        ;
    }
}

/// A dropped user becomes row zero, and every other one stays.
pub proof fn dropped_users_become_row_zero(user_idx: Seq<usize>, dropped: Seq<bool>, i: int)
    requires
        0 <= i < user_idx.len() == dropped.len(),
    ensures
        after_dropout(user_idx, dropped).len() == user_idx.len(),
        dropped[i] ==> after_dropout(user_idx, dropped)[i] == 0,
        !dropped[i] ==> after_dropout(user_idx, dropped)[i] == user_idx[i],
{
}

/// Batches have the size asked for, and one example each where none is asked for.
pub proof fn batches_have_the_size_asked_for(size: usize)
    ensures
        size > 0 ==> at_least_one(size) == size,
        size == 0 ==> at_least_one(size) == 1,
{
}

} // verus!
