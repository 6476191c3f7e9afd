//! From long-format tables to identifier mappings and the coordinates of the training matrices.

use crate::groups::{lemma_first_seen, lemma_present};
use crate::ids::{
    first_seen, id_entries, id_get, index_and_names_are_inverse, intern, is_index_of,
    new_id_map, present, text_of, texts,
};
use crate::selection::{lemma_collects, lemma_folds, places};
use ahash::AHashMap;
use vstd::prelude::*;
use vstd::string::StringExecFns;

verus! {

/// A kind of table file.
#[derive(Debug, Clone, Copy, PartialEq, Eq, Structural)]
pub enum TableFormat {
    Parquet,
    Csv,
}

/// The kind of a table file by the extension of its name, or why it is not read.
pub fn table_format(extension: Option<&str>, path: &str) -> (format: Result<TableFormat, String>)
    ensures
        match format {
            Ok(TableFormat::Parquet) => extension matches Some(name) && name@ == "parquet"@,
            Ok(TableFormat::Csv) => extension matches Some(name) && name@ == "csv"@,
            Err(text) => {
                &&& extension matches Some(name) ==> name@ != "parquet"@ && name@ != "csv"@
                &&& text@ == "Unsupported file type for: "@ + path@
                    + ". Supported types are .parquet and .csv"@
            },
        },
{
    if let Some(name) = extension {
        let name: String = name.to_owned();
        if name == "parquet".to_owned() {
            return Ok(TableFormat::Parquet);
        }
        if name == "csv".to_owned() {
            return Ok(TableFormat::Csv);
        }
    }
    let mut text: String = "Unsupported file type for: ".to_owned();
    text.append(path);
    text.append(". Supported types are .parquet and .csv");
    Err(text)
}

/// A long-format table: one row per observed value, each cell possibly missing.
pub struct LongTable<V> {
    /// The identifier that selects the matrix row.
    pub rows: Vec<Option<String>>,
    /// The identifier or feature name that selects the matrix column.
    pub cols: Vec<Option<String>>,
    /// The observed value.
    pub values: Vec<Option<V>>,
}

/// The mappings between identifiers and indices that training and prediction share.
pub struct Mappings {
    pub user_to_idx: AHashMap<String, usize>,
    pub idx_to_user: Vec<String>,
    pub item_to_idx: AHashMap<String, usize>,
    pub idx_to_item: Vec<String>,
    pub user_feature_to_idx: AHashMap<String, usize>,
    pub idx_to_user_feature: Vec<String>,
    pub item_feature_to_idx: AHashMap<String, usize>,
    pub idx_to_item_feature: Vec<String>,
}

impl Mappings {
    /// Each of the four maps is inverse to its list of names.
    pub open spec fn wf(&self) -> bool {
        &&& is_index_of(id_entries(self.user_to_idx), texts(self.idx_to_user@))
        &&& is_index_of(id_entries(self.item_to_idx), texts(self.idx_to_item@))
        &&& is_index_of(id_entries(self.user_feature_to_idx), texts(self.idx_to_user_feature@))
        &&& is_index_of(id_entries(self.item_feature_to_idx), texts(self.idx_to_item_feature@))
    }
}

/// A sparse matrix by its shape and its `(row, column, value)` entries; entries for one position
/// add up.
pub struct TripletMatrix<V> {
    pub num_rows: usize,
    pub num_cols: usize,
    pub entries: Vec<(usize, usize, V)>,
}

/// The three training matrices and their mappings.
pub struct TrainingMatrices<V> {
    /// Users by items.
    pub x: TripletMatrix<V>,
    /// Users by user features.
    pub u: TripletMatrix<V>,
    /// Item features by items.
    pub t: TripletMatrix<V>,
    pub mappings: Mappings,
}

/// The texts of the cells that are present in the first `n` columns, in order.
pub open spec fn present_in(columns: Seq<&[Option<String>]>, n: int) -> Seq<Seq<char>>
    decreases n,
{
    if n <= 0 {
        Seq::empty()
    } else {
        present_in(columns, n - 1) + present(columns[n - 1]@)
    }
}

/// The number of rows that three columns have in common.
pub open spec fn common_rows(rows: int, cols: int, values: int) -> int {
    if rows <= cols && rows <= values {
        rows
    } else if cols <= values {
        cols
    } else {
        values
    }
}

/// The entry of row `i`, if its cells are present and its identifiers are known.
pub open spec fn triplet_at<V>(
    rows: Seq<Option<String>>,
    cols: Seq<Option<String>>,
    values: Seq<Option<V>>,
    row_index: Map<Seq<char>, usize>,
    col_index: Map<Seq<char>, usize>,
    i: int,
) -> Option<(usize, usize, V)> {
    match (text_of(rows[i]), text_of(cols[i]), values[i]) {
        (Some(row), Some(col), Some(value)) => if row_index.dom().contains(row)
            && col_index.dom().contains(col) {
            Some((row_index[row], col_index[col], value))
        } else {
            None
        },
        _ => None,
    }
}

/// The entries of the first `n` rows, in order.
pub open spec fn triplets<V>(
    rows: Seq<Option<String>>,
    cols: Seq<Option<String>>,
    values: Seq<Option<V>>,
    row_index: Map<Seq<char>, usize>,
    col_index: Map<Seq<char>, usize>,
    n: int,
) -> Seq<(usize, usize, V)>
    decreases n,
{
    if n <= 0 {
        Seq::empty()
    } else {
        let earlier = triplets(rows, cols, values, row_index, col_index, n - 1);
        match triplet_at(rows, cols, values, row_index, col_index, n - 1) {
            Some(entry) => earlier.push(entry),
            None => earlier,
        }
    }
}

/// The entries of a whole table.
pub open spec fn table_triplets<V>(
    table: LongTable<V>,
    row_index: Map<Seq<char>, usize>,
    col_index: Map<Seq<char>, usize>,
) -> Seq<(usize, usize, V)> {
    triplets(
        table.rows@,
        table.cols@,
        table.values@,
        row_index,
        col_index,
        common_rows(
            table.rows@.len() as int,
            table.cols@.len() as int,
            table.values@.len() as int,
        ),
    )
}

/// The rows among the first `n` that have an entry, in order.
pub open spec fn entry_rows<V>(
    rows: Seq<Option<String>>,
    cols: Seq<Option<String>>,
    values: Seq<Option<V>>,
    row_index: Map<Seq<char>, usize>,
    col_index: Map<Seq<char>, usize>,
    n: int,
) -> Seq<int>
    decreases n,
{
    if n <= 0 {
        Seq::empty()
    } else {
        let earlier = entry_rows(rows, cols, values, row_index, col_index, n - 1);
        match triplet_at(rows, cols, values, row_index, col_index, n - 1) {
            Some(_) => earlier.push(n - 1),
            None => earlier,
        }
    }
}

/// The rows of a whole table that have an entry.
pub open spec fn table_entry_rows<V>(
    table: LongTable<V>,
    row_index: Map<Seq<char>, usize>,
    col_index: Map<Seq<char>, usize>,
) -> Seq<int> {
    entry_rows(
        table.rows@,
        table.cols@,
        table.values@,
        row_index,
        col_index,
        common_rows(
            table.rows@.len() as int,
            table.cols@.len() as int,
            table.values@.len() as int,
        ),
    )
}

/// Entries with row and column exchanged.
pub open spec fn transposed<V>(entries: Seq<(usize, usize, V)>) -> Seq<(usize, usize, V)> {
    entries.map_values(|e: (usize, usize, V)| (e.1, e.0, e.2))
}

/// Every entry lies inside the shape.
pub open spec fn in_bounds<V>(
    entries: Seq<(usize, usize, V)>,
    num_rows: usize,
    num_cols: usize,
) -> bool {
    forall|k: int|
        0 <= k < entries.len() ==> (#[trigger] entries[k]).0 < num_rows && entries[k].1 < num_cols
}

/// Numbers the distinct identifiers of `columns` in order of first occurrence.
pub fn build_mapping_from_columns(columns: &[&[Option<String>]]) -> (mapping: (
    AHashMap<String, usize>,
    Vec<String>,
))
    ensures
        is_index_of(id_entries(mapping.0), texts(mapping.1@)),
        texts(mapping.1@) == first_seen(present_in(columns@, columns@.len() as int)),
{
    let mut map = new_id_map();
    let mut names: Vec<String> = Vec::new();
    assert(texts(names@) =~= Seq::empty());
    let mut c: usize = 0;
    while c < columns.len()
        invariant
            c <= columns.len(),
            is_index_of(id_entries(map), texts(names@)),
            texts(names@) == first_seen(present_in(columns@, c as int)),
        decreases columns.len() - c,
    {
        let column = columns[c];
        let ghost before = present_in(columns@, c as int);
        let mut i: usize = 0;
        assert(column@.take(0) =~= Seq::empty());
        assert(before + present(column@.take(0)) =~= before);
        while i < column.len()
            invariant
                i <= column.len(),
                is_index_of(id_entries(map), texts(names@)),
                texts(names@) == first_seen(before + present(column@.take(i as int))),
            decreases column.len() - i,
        {
            let ghost prefix = column@.take(i as int);
            proof {
                assert(column@.take(i + 1) =~= prefix.push(column@[i as int]));
                assert(prefix.push(column@[i as int]).drop_last() =~= prefix);
            }
            if let Some(name) = &column[i] {
                let index: usize = intern(&mut map, &mut names, name.as_str());
                proof {
                    let seen = before + present(prefix);
                    assert(before + present(column@.take(i + 1)) =~= seen.push(name@));
                    assert(seen.push(name@).drop_last() =~= seen);
                }
            } else {
                assert(present(column@.take(i + 1)) =~= present(prefix));
            }
            i = i + 1;
        }
        assert(column@.take(i as int) =~= column@);
        c = c + 1;
    }
    (map, names)
}

/// The `(row, column, value)` entries of a table: rows with a missing cell or an unknown identifier
/// are skipped.
pub fn build_triplets<V: Copy>(
    table: &LongTable<V>,
    row_map: &AHashMap<String, usize>,
    col_map: &AHashMap<String, usize>,
) -> (entries: Vec<(usize, usize, V)>)
    ensures
        entries@ == table_triplets(*table, id_entries(*row_map), id_entries(*col_map)),
{
    let ghost row_index = id_entries(*row_map);
    let ghost col_index = id_entries(*col_map);
    let mut entries: Vec<(usize, usize, V)> = Vec::new();
    let mut i: usize = 0;
    while i < table.rows.len() && i < table.cols.len() && i < table.values.len()
        invariant
            i <= table.rows.len(),
            i <= table.cols.len(),
            i <= table.values.len(),
            row_index == id_entries(*row_map),
            col_index == id_entries(*col_map),
            entries@ == triplets(
                table.rows@,
                table.cols@,
                table.values@,
                row_index,
                col_index,
                i as int,
            ),
        decreases table.rows.len() - i,
    {
        match (&table.rows[i], &table.cols[i], table.values[i]) {
            (Some(row), Some(col), Some(value)) => {
                match (id_get(row_map, row.as_str()), id_get(col_map, col.as_str())) {
                    (Some(row_idx), Some(col_idx)) => {
                        entries.push((row_idx, col_idx, value));
                    },
                    _ => {},
                }
            },
            _ => {},
        }
        i = i + 1;
    }
    entries
}

/// The rows of a table that have an entry, in the order of the entries. With them the cells of
/// further columns are brought into line with the entries.
pub fn kept_rows<V: Copy>(
    table: &LongTable<V>,
    row_map: &AHashMap<String, usize>,
    col_map: &AHashMap<String, usize>,
) -> (kept: Vec<usize>)
    ensures
        kept@.map_values(|i: usize| i as int) == table_entry_rows(
            *table,
            id_entries(*row_map),
            id_entries(*col_map),
        ),
{
    let ghost row_index = id_entries(*row_map);
    let ghost col_index = id_entries(*col_map);
    let ghost as_int = |i: usize| i as int;
    let mut kept: Vec<usize> = Vec::new();
    let mut i: usize = 0;
    assert(kept@.map_values(as_int) =~= Seq::empty());
    while i < table.rows.len() && i < table.cols.len() && i < table.values.len()
        invariant
            i <= table.rows.len(),
            i <= table.cols.len(),
            i <= table.values.len(),
            row_index == id_entries(*row_map),
            col_index == id_entries(*col_map),
            as_int == (|i: usize| i as int),
            kept@.map_values(as_int) == entry_rows(
                table.rows@,
                table.cols@,
                table.values@,
                row_index,
                col_index,
                i as int,
            ),
        decreases table.rows.len() - i,
    {
        let ghost before = kept@;
        match (&table.rows[i], &table.cols[i], table.values[i]) {
            (Some(row), Some(col), Some(_)) => {
                if id_get(row_map, row.as_str()).is_some() && id_get(
                    col_map,
                    col.as_str(),
                ).is_some() {
                    kept.push(i);
                    assert(kept@.map_values(as_int) =~= before.map_values(as_int).push(i as int));
                }
            },
            _ => {},
        }
        i = i + 1;
    }
    kept
}

/// Exchanges the rows and the columns of `entries`.
fn transpose_entries<V: Copy>(entries: &Vec<(usize, usize, V)>) -> (swapped: Vec<
    (usize, usize, V),
>)
    ensures
        swapped@ == transposed(entries@),
{
    let mut swapped: Vec<(usize, usize, V)> = Vec::new();
    let mut k: usize = 0;
    while k < entries.len()
        invariant
            k <= entries.len(),
            swapped@ == transposed(entries@.take(k as int)),
        decreases entries.len() - k,
    {
        let (row, col, value) = entries[k];
        swapped.push((col, row, value));
        assert(swapped@ =~= transposed(entries@.take(k + 1)));
        k = k + 1;
    }
    assert(entries@.take(k as int) =~= entries@);
    swapped
}

/// Builds the training matrices: users and items are numbered over the interactions and their
/// feature tables together, so that entities without interactions have an index too.
pub fn build_matrices<V: Copy>(
    interactions: &LongTable<V>,
    user_features: &LongTable<V>,
    item_features: &LongTable<V>,
) -> (built: TrainingMatrices<V>)
    ensures
        built.mappings.wf(),
        texts(built.mappings.idx_to_user@) == first_seen(
            present(interactions.rows@) + present(user_features.rows@),
        ),
        texts(built.mappings.idx_to_item@) == first_seen(
            present(interactions.cols@) + present(item_features.rows@),
        ),
        texts(built.mappings.idx_to_user_feature@) == first_seen(present(user_features.cols@)),
        texts(built.mappings.idx_to_item_feature@) == first_seen(present(item_features.cols@)),
        built.x.num_rows == built.mappings.idx_to_user@.len(),
        built.x.num_cols == built.mappings.idx_to_item@.len(),
        built.u.num_rows == built.mappings.idx_to_user@.len(),
        built.u.num_cols == built.mappings.idx_to_user_feature@.len(),
        built.t.num_rows == built.mappings.idx_to_item_feature@.len(),
        built.t.num_cols == built.mappings.idx_to_item@.len(),
        built.x.entries@ == table_triplets(
            *interactions,
            id_entries(built.mappings.user_to_idx),
            id_entries(built.mappings.item_to_idx),
        ),
        built.u.entries@ == table_triplets(
            *user_features,
            id_entries(built.mappings.user_to_idx),
            id_entries(built.mappings.user_feature_to_idx),
        ),
        built.t.entries@ == transposed(
            table_triplets(
                *item_features,
                id_entries(built.mappings.item_to_idx),
                id_entries(built.mappings.item_feature_to_idx),
            ),
        ),
        in_bounds(built.x.entries@, built.x.num_rows, built.x.num_cols),
        in_bounds(built.u.entries@, built.u.num_rows, built.u.num_cols),
        in_bounds(built.t.entries@, built.t.num_rows, built.t.num_cols),
{
    let user_columns: Vec<&[Option<String>]> = vec![
        interactions.rows.as_slice(),
        user_features.rows.as_slice(),
    ];
    let item_columns: Vec<&[Option<String>]> = vec![
        interactions.cols.as_slice(),
        item_features.rows.as_slice(),
    ];
    let user_feature_columns: Vec<&[Option<String>]> = vec![user_features.cols.as_slice()];
    let item_feature_columns: Vec<&[Option<String>]> = vec![item_features.cols.as_slice()];
    let (user_to_idx, idx_to_user) = build_mapping_from_columns(&user_columns);
    let (item_to_idx, idx_to_item) = build_mapping_from_columns(&item_columns);
    let (user_feature_to_idx, idx_to_user_feature) = build_mapping_from_columns(
        &user_feature_columns,
    );
    let (item_feature_to_idx, idx_to_item_feature) = build_mapping_from_columns(
        &item_feature_columns,
    );
    proof {
        reveal_with_fuel(present_in, 3);
        assert(present_in(user_columns@, 2) =~= present(interactions.rows@) + present(
            user_features.rows@,
        ));
        assert(present_in(item_columns@, 2) =~= present(interactions.cols@) + present(
            item_features.rows@,
        ));
        assert(present_in(user_feature_columns@, 1) =~= present(user_features.cols@));
        assert(present_in(item_feature_columns@, 1) =~= present(item_features.cols@));
    }
    let num_users: usize = idx_to_user.len();
    let num_items: usize = idx_to_item.len();
    let num_user_features: usize = idx_to_user_feature.len();
    let num_item_features: usize = idx_to_item_feature.len();
    let x_entries = build_triplets(interactions, &user_to_idx, &item_to_idx);
    let u_entries = build_triplets(user_features, &user_to_idx, &user_feature_to_idx);
    let t_by_item = build_triplets(item_features, &item_to_idx, &item_feature_to_idx);
    let t_entries = transpose_entries(&t_by_item);
    proof {
        lemma_in_bounds(
            *interactions,
            id_entries(user_to_idx),
            texts(idx_to_user@),
            id_entries(item_to_idx),
            texts(idx_to_item@),
        );
        lemma_in_bounds(
            *user_features,
            id_entries(user_to_idx),
            texts(idx_to_user@),
            id_entries(user_feature_to_idx),
            texts(idx_to_user_feature@),
        );
        lemma_in_bounds(
            *item_features,
            id_entries(item_to_idx),
            texts(idx_to_item@),
            id_entries(item_feature_to_idx),
            texts(idx_to_item_feature@),
        );
        assert forall|k: int| 0 <= k < t_entries@.len() implies (#[trigger] t_entries@[k]).0
            < num_item_features && t_entries@[k].1 < num_items by {
            assert(t_by_item@[k].0 < num_items);
        }
    }
    TrainingMatrices {
        x: TripletMatrix { num_rows: num_users, num_cols: num_items, entries: x_entries },
        u: TripletMatrix {
            num_rows: num_users,
            num_cols: num_user_features,
            entries: u_entries,
        },
        t: TripletMatrix {
            num_rows: num_item_features,
            num_cols: num_items,
            entries: t_entries,
        },
        mappings: Mappings {
            user_to_idx,
            idx_to_user,
            item_to_idx,
            idx_to_item,
            user_feature_to_idx,
            idx_to_user_feature,
            item_feature_to_idx,
            idx_to_item_feature,
        },
    }
}

/// Entries looked up in indices stay inside the numbers of names.
proof fn lemma_in_bounds<V>(
    table: LongTable<V>,
    row_index: Map<Seq<char>, usize>,
    row_names: Seq<Seq<char>>,
    col_index: Map<Seq<char>, usize>,
    col_names: Seq<Seq<char>>,
)
    requires
        is_index_of(row_index, row_names),
        is_index_of(col_index, col_names),
        row_names.len() <= usize::MAX,
        col_names.len() <= usize::MAX,
    ensures
        in_bounds(
            table_triplets(table, row_index, col_index),
            row_names.len() as usize,
            col_names.len() as usize,
        ),
{
    lemma_triplets_in_bounds(
        table,
        row_index,
        row_names,
        col_index,
        col_names,
        common_rows(
            table.rows@.len() as int,
            table.cols@.len() as int,
            table.values@.len() as int,
        ),
    );
}

proof fn lemma_triplets_in_bounds<V>(
    table: LongTable<V>,
    row_index: Map<Seq<char>, usize>,
    row_names: Seq<Seq<char>>,
    col_index: Map<Seq<char>, usize>,
    col_names: Seq<Seq<char>>,
    n: int,
)
    requires
        is_index_of(row_index, row_names),
        is_index_of(col_index, col_names),
        row_names.len() <= usize::MAX,
        col_names.len() <= usize::MAX,
    ensures
        in_bounds(
            triplets(table.rows@, table.cols@, table.values@, row_index, col_index, n),
            row_names.len() as usize,
            col_names.len() as usize,
        ),
    decreases n,
{
    if n > 0 {
        lemma_triplets_in_bounds(table, row_index, row_names, col_index, col_names, n - 1);
        match (text_of(table.rows@[n - 1]), text_of(table.cols@[n - 1])) {
            (Some(row), Some(col)) => {
                index_and_names_are_inverse(row_index, row_names, row, 0);
                index_and_names_are_inverse(col_index, col_names, col, 0);
            },
            _ => {},
        }
    }
}

/// No complete row is lost: where every identifier of a row is numbered, the row contributes an
/// entry under its indices.
pub proof fn complete_rows_are_kept<V>(
    table: LongTable<V>,
    row_index: Map<Seq<char>, usize>,
    row_names: Seq<Seq<char>>,
    col_index: Map<Seq<char>, usize>,
    col_names: Seq<Seq<char>>,
    i: int,
)
    requires
        is_index_of(row_index, row_names),
        is_index_of(col_index, col_names),
        forall|name: Seq<char>|
            #[trigger] present(table.rows@).contains(name) ==> row_names.contains(name),
        forall|name: Seq<char>|
            #[trigger] present(table.cols@).contains(name) ==> col_names.contains(name),
        0 <= i < common_rows(
            table.rows@.len() as int,
            table.cols@.len() as int,
            table.values@.len() as int,
        ),
        table.rows@[i] is Some,
        table.cols@[i] is Some,
        table.values@[i] is Some,
    ensures
        table_triplets(table, row_index, col_index).contains(
            (
                row_index[table.rows@[i].unwrap()@],
                col_index[table.cols@[i].unwrap()@],
                table.values@[i].unwrap(),
            ),
        ),
{
    let row = table.rows@[i].unwrap()@;
    let col = table.cols@[i].unwrap()@;
    lemma_present(table.rows@, row);
    lemma_present(table.cols@, col);
    assert(text_of(table.rows@[i]) == Some(row));
    assert(text_of(table.cols@[i]) == Some(col));
    assert(present(table.rows@).contains(row));
    assert(present(table.cols@).contains(col));
    lemma_triplets_contain(
        table,
        row_index,
        col_index,
        i,
        common_rows(
            table.rows@.len() as int,
            table.cols@.len() as int,
            table.values@.len() as int,
        ),
    );
}

proof fn lemma_triplets_contain<V>(
    table: LongTable<V>,
    row_index: Map<Seq<char>, usize>,
    col_index: Map<Seq<char>, usize>,
    i: int,
    n: int,
)
    requires
        0 <= i < n,
        triplet_at(table.rows@, table.cols@, table.values@, row_index, col_index, i) is Some,
    ensures
        triplets(table.rows@, table.cols@, table.values@, row_index, col_index, n).contains(
            triplet_at(table.rows@, table.cols@, table.values@, row_index, col_index, i).unwrap(),
        ),
    decreases n,
{
    let entry = triplet_at(
        table.rows@,
        table.cols@,
        table.values@,
        row_index,
        col_index,
        i,
    ).unwrap();
    let all = triplets(table.rows@, table.cols@, table.values@, row_index, col_index, n);
    if i == n - 1 {
        assert(all.last() == entry);
    } else {
        lemma_triplets_contain(table, row_index, col_index, i, n - 1);
        let earlier = triplets(
            table.rows@,
            table.cols@,
            table.values@,
            row_index,
            col_index,
            n - 1,
        );
        let k = choose|k: int| 0 <= k < earlier.len() && earlier[k] == entry;
        assert(all[k] == entry);
    }
}

/// Entries and kept rows go together: the entry at a position is that of the row kept there, and
/// the rows ascend.
pub proof fn kept_rows_belong_to_entries<V>(
    table: LongTable<V>,
    row_index: Map<Seq<char>, usize>,
    col_index: Map<Seq<char>, usize>,
)
    ensures
        ({
            let kept = table_entry_rows(table, row_index, col_index);
            let entries = table_triplets(table, row_index, col_index);
            &&& kept.len() == entries.len()
            &&& forall|k: int|
                0 <= k < kept.len() ==> 0 <= #[trigger] kept[k] < table.rows@.len() && triplet_at(
                    table.rows@,
                    table.cols@,
                    table.values@,
                    row_index,
                    col_index,
                    kept[k],
                ) == Some(entries[k])
            &&& forall|j: int, k: int| 0 <= j < k < kept.len() ==> kept[j] < kept[k]
        }),
{
    lemma_entry_rows(
        table,
        row_index,
        col_index,
        common_rows(
            table.rows@.len() as int,
            table.cols@.len() as int,
            table.values@.len() as int,
        ),
    );
}

proof fn lemma_entry_rows<V>(
    table: LongTable<V>,
    row_index: Map<Seq<char>, usize>,
    col_index: Map<Seq<char>, usize>,
    n: int,
)
    ensures
        ({
            let kept = entry_rows(
                table.rows@,
                table.cols@,
                table.values@,
                row_index,
                col_index,
                n,
            );
            let entries = triplets(
                table.rows@,
                table.cols@,
                table.values@,
                row_index,
                col_index,
                n,
            );
            &&& kept.len() == entries.len()
            &&& forall|k: int|
                0 <= k < kept.len() ==> 0 <= #[trigger] kept[k] < n && triplet_at(
                    table.rows@,
                    table.cols@,
                    table.values@,
                    row_index,
                    col_index,
                    kept[k],
                ) == Some(entries[k])
            &&& forall|j: int, k: int| 0 <= j < k < kept.len() ==> kept[j] < kept[k]
        }),
    decreases n,
{
    if n > 0 {
        lemma_entry_rows(table, row_index, col_index, n - 1);
    }
}

/// The mappings of `build_matrices` number every identifier of every table: what `first_seen` lists
/// of two columns holds the texts of both.
pub proof fn joint_numbering_covers_both(
    first: Seq<Option<String>>,
    second: Seq<Option<String>>,
    name: Seq<char>,
)
    ensures
        first_seen(present(first) + present(second)).contains(name) <==> present(first).contains(
            name,
        ) || present(second).contains(name),
{
    let both = present(first) + present(second);
    lemma_first_seen(both);
    if both.contains(name) {
        let k = choose|k: int| 0 <= k < both.len() && both[k] == name;
        if k < present(first).len() {
            assert(present(first)[k] == name);
        } else {
            assert(present(second)[k - present(first).len()] == name);
        }
    }
    if present(first).contains(name) {
        let k = choose|k: int| 0 <= k < present(first).len() && present(first)[k] == name;
        assert(both[k] == name);
    }
    if present(second).contains(name) {
        let k = choose|k: int| 0 <= k < present(second).len() && present(second)[k] == name;
        assert(both[k + present(first).len()] == name);
    }
}

/// Row `i` is complete, and both of its identifiers are known.
pub open spec fn is_known_entry<V>(
    table: LongTable<V>,
    row_index: Map<Seq<char>, usize>,
    col_index: Map<Seq<char>, usize>,
    i: int,
) -> bool {
    &&& table.rows@[i] is Some && row_index.dom().contains(table.rows@[i].unwrap()@)
    &&& table.cols@[i] is Some && col_index.dom().contains(table.cols@[i].unwrap()@)
    &&& table.values@[i] is Some
}

/// The entries of a table are those of its complete rows with known identifiers, in the order of the
/// rows: the index of the row, the index of the column and the value. The kept rows are the places
/// of those rows. Rows beyond the shortest column have no entry.
pub proof fn entries_are_the_known_rows<V>(
    table: LongTable<V>,
    row_index: Map<Seq<char>, usize>,
    col_index: Map<Seq<char>, usize>,
    n: nat,
)
    requires
        n <= table.rows@.len() && n <= table.cols@.len() && n <= table.values@.len(),
        n == table.rows@.len() || n == table.cols@.len() || n == table.values@.len(),
    ensures
        table_entry_rows(table, row_index, col_index) == places(
            n,
            |i: int| is_known_entry(table, row_index, col_index, i),
        ),
        table_triplets(table, row_index, col_index) == places(
            n,
            |i: int| is_known_entry(table, row_index, col_index, i),
        ).map_values(
            |i: int|
                (
                    row_index[table.rows@[i].unwrap()@],
                    col_index[table.cols@[i].unwrap()@],
                    table.values@[i].unwrap(),
                ),
        ),
{
    let holds = |i: int| is_known_entry(table, row_index, col_index, i);
    let (rows, cols, values) = (table.rows@, table.cols@, table.values@);
    lemma_collects(
        n,
        holds,
        |i: int| (row_index[rows[i].unwrap()@], col_index[cols[i].unwrap()@], values[i].unwrap()),
        |k: int| triplets(rows, cols, values, row_index, col_index, k),
    );
    lemma_collects(
        n,
        holds,
        |i: int| i,
        |k: int| entry_rows(rows, cols, values, row_index, col_index, k),
    );
    assert(places(n, holds).map_values(|i: int| i) =~= places(n, holds));
}

/// Exchanging rows and columns keeps the values.
pub proof fn transposing_exchanges_coordinates<V>(entries: Seq<(usize, usize, V)>, k: int)
    requires
        0 <= k < entries.len(),
    ensures
        transposed(entries).len() == entries.len(),
        transposed(entries)[k].0 == entries[k].1,
        transposed(entries)[k].1 == entries[k].0,
        transposed(entries)[k].2 == entries[k].2,
        transposed(transposed(entries)) == entries,
{
    assert(transposed(transposed(entries)) =~= entries);
}

/// The identifiers of several columns are those of one column after the other.
pub proof fn columns_are_read_in_turn(columns: Seq<&[Option<String>]>)
    ensures
        present_in(columns, columns.len() as int) == columns.fold_left(
            Seq::<Seq<char>>::empty(),
            |seen: Seq<Seq<char>>, column: &[Option<String>]| seen + present(column@),
        ),
{
    lemma_folds(
        columns,
        Seq::<Seq<char>>::empty(),
        |seen: Seq<Seq<char>>, column: &[Option<String>]| seen + present(column@),
        |k: int| present_in(columns, k),
        columns.len(),
    );
    assert(columns.take(columns.len() as int) =~= columns);
}

} // verus!
