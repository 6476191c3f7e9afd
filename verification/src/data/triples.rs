//! Positive `(user, item)` pairs and per-entity feature rows for two-tower models.

use crate::groups::lemma_first_seen;
use crate::ids::{
    first_seen, id_entries, id_get, index_and_names_are_inverse, intern, is_index_of, new_id_map,
    texts,
};
use crate::order::ordered_type;
use crate::selection::{lemma_collects, places};
use crate::text::{join, joined};
use ahash::AHashMap;
use vstd::prelude::*;
use vstd::std_specs::cmp::PartialOrdIs;

verus! {

/// The row that stands for a user without history.
pub const COLD_START_USER_IDX: usize = 0;

/// The reserved identifier of the cold-start row.
pub const COLD_START_USER_ID: &'static str = "__cold_start__";

/// A positive example: a user interacted with an item.
#[derive(Debug, Clone, Copy, PartialEq, Eq, Structural)]
pub struct Triple {
    pub user_idx: usize,
    pub item_idx: usize,
}

/// The positive examples with the mappings of their identifiers.
pub struct TripleData {
    pub triples: Vec<Triple>,
    pub user_to_idx: AHashMap<String, usize>,
    pub idx_to_user: Vec<String>,
    pub item_to_idx: AHashMap<String, usize>,
    pub idx_to_item: Vec<String>,
}

impl TripleData {
    /// The mappings are inverse to their lists, and every example lies inside them.
    pub open spec fn wf(&self) -> bool {
        &&& is_index_of(id_entries(self.user_to_idx), texts(self.idx_to_user@))
        &&& is_index_of(id_entries(self.item_to_idx), texts(self.idx_to_item@))
        &&& forall|k: int|
            0 <= k < self.triples@.len() ==> (#[trigger] self.triples@[k]).user_idx
                < self.idx_to_user@.len() && self.triples@[k].item_idx < self.idx_to_item@.len()
    }

    /// The number of users.
    pub fn num_users(&self) -> (n: usize)
        ensures
            n == self.idx_to_user@.len(),
    {
        self.idx_to_user.len()
    }

    /// The number of items.
    pub fn num_items(&self) -> (n: usize)
        ensures
            n == self.idx_to_item@.len(),
    {
        self.idx_to_item.len()
    }
}

/// Why no examples could be loaded.
#[derive(Debug, Clone, Copy, PartialEq, Eq, Structural)]
pub enum LoadError {
    /// The columns of the interactions table do not have the same number of rows.
    MismatchedInteractions,
    /// The columns of a feature table do not have the same number of rows.
    MismatchedFeatures,
    /// No row is a positive example.
    NoPositives,
}

/// The text of an error for the file at `path`.
pub open spec fn load_message(error: LoadError, path: Seq<char>) -> Seq<char> {
    match error {
        LoadError::MismatchedInteractions => "interactions columns have mismatched lengths"@,
        LoadError::MismatchedFeatures => "feature columns have mismatched lengths"@,
        LoadError::NoPositives => "no positive interactions found in "@ + path,
    }
}

impl LoadError {
    /// A description for the caller.
    pub fn message(&self, path: &str) -> (text: String)
        ensures
            text@ == load_message(*self, path@),
    {
        match self {
            LoadError::MismatchedInteractions =>
                "interactions columns have mismatched lengths".to_owned(),
            LoadError::MismatchedFeatures => "feature columns have mismatched lengths".to_owned(),
            LoadError::NoPositives => {
                let parts: [&str; 2] = ["no positive interactions found in ", path];
                proof {
                    reveal_with_fuel(joined, 3);
                    assert(joined(parts@) =~= load_message(*self, path@));
                }
                join(&parts)
            },
        }
    }
}

/// The text of a cell; a missing one is empty.
pub open spec fn cell_text(cell: Option<String>) -> Seq<char> {
    match cell {
        Some(s) => s@,
        None => Seq::empty(),
    }
}

/// Row `i` is a positive example: it has no value column to say otherwise, or a value that does not
/// compare at most `zero`.
pub open spec fn is_positive<V: PartialOrd>(
    values: Option<&[Option<V>]>,
    zero: V,
    i: int,
) -> bool {
    match values {
        None => true,
        Some(column) => match column@[i] {
            Some(value) => !value.is_le(&zero),
            None => false,
        },
    }
}

/// The texts of `column` in the positive rows among the first `n`.
pub open spec fn positive_texts<V: PartialOrd>(
    column: Seq<Option<String>>,
    values: Option<&[Option<V>]>,
    zero: V,
    n: int,
) -> Seq<Seq<char>>
    decreases n,
{
    if n <= 0 {
        Seq::empty()
    } else if is_positive(values, zero, n - 1) {
        positive_texts(column, values, zero, n - 1).push(cell_text(column[n - 1]))
    } else {
        positive_texts(column, values, zero, n - 1)
    }
}

/// The interning of one more text.
proof fn lemma_intern_step(seen: Seq<Seq<char>>, text: Seq<char>)
    ensures
        first_seen(seen.push(text)) == (if first_seen(seen).contains(text) {
            first_seen(seen)
        } else {
            first_seen(seen).push(text)
        }),
{
    assert(seen.push(text).drop_last() =~= seen);
}

/// Loads the positive examples of an interactions table, numbering users and items in order of
/// first occurrence in a positive row.
pub fn load_triples<V: PartialOrd + Copy>(
    users: &[Option<String>],
    items: &[Option<String>],
    values: Option<&[Option<V>]>,
    zero: V,
) -> (loaded: Result<TripleData, LoadError>)
    requires
        ordered_type::<V>(),
    ensures
        ({
            let n = users@.len() as int;
            let mismatch = n != items@.len() || (values matches Some(column) && n
                != column@.len());
            let user_texts = positive_texts(users@, values, zero, n);
            let item_texts = positive_texts(items@, values, zero, n);
            match loaded {
                Err(LoadError::MismatchedInteractions) => mismatch,
                Err(LoadError::NoPositives) => !mismatch && user_texts.len() == 0,
                Err(LoadError::MismatchedFeatures) => false,
                Ok(data) => {
                    &&& !mismatch
                    &&& user_texts.len() > 0
                    &&& data.wf()
                    &&& texts(data.idx_to_user@) == first_seen(user_texts)
                    &&& texts(data.idx_to_item@) == first_seen(item_texts)
                    &&& data.triples@.len() == user_texts.len()
                    &&& forall|k: int|
                        0 <= k < data.triples@.len() ==> (#[trigger] data.triples@[k]).user_idx
                            == id_entries(data.user_to_idx)[user_texts[k]]
                            && data.triples@[k].item_idx == id_entries(
                            data.item_to_idx,
                        )[item_texts[k]]
                },
            }
        }),
{
    let n: usize = users.len();
    if n != items.len() {
        return Err(LoadError::MismatchedInteractions);
    }
    if let Some(column) = values {
        if n != column.len() {
            return Err(LoadError::MismatchedInteractions);
        }
    }
    let mut user_to_idx = new_id_map();
    let mut idx_to_user: Vec<String> = Vec::new();
    let mut item_to_idx = new_id_map();
    let mut idx_to_item: Vec<String> = Vec::new();
    let mut triples: Vec<Triple> = Vec::new();
    assert(texts(idx_to_user@) =~= Seq::empty());
    assert(texts(idx_to_item@) =~= Seq::empty());
    let mut i: usize = 0;
    while i < n
        invariant
            i <= n,
            n == users@.len(),
            n == items@.len(),
            values matches Some(column) ==> n == column@.len(),
            ordered_type::<V>(),
            is_index_of(id_entries(user_to_idx), texts(idx_to_user@)),
            is_index_of(id_entries(item_to_idx), texts(idx_to_item@)),
            texts(idx_to_user@) == first_seen(positive_texts(users@, values, zero, i as int)),
            texts(idx_to_item@) == first_seen(positive_texts(items@, values, zero, i as int)),
            triples@.len() == positive_texts(users@, values, zero, i as int).len(),
            triples@.len() == positive_texts(items@, values, zero, i as int).len(),
            forall|k: int|
                0 <= k < triples@.len() ==> {
                    &&& (#[trigger] triples@[k]).user_idx < idx_to_user@.len()
                    &&& triples@[k].item_idx < idx_to_item@.len()
                    &&& texts(idx_to_user@)[triples@[k].user_idx as int] == positive_texts(
                        users@,
                        values,
                        zero,
                        i as int,
                    )[k]
                    &&& texts(idx_to_item@)[triples@[k].item_idx as int] == positive_texts(
                        items@,
                        values,
                        zero,
                        i as int,
                    )[k]
                },
        decreases n - i,
    {
        let positive: bool = match values {
            None => true,
            Some(column) => match column[i] {
                Some(value) => !(value <= zero),
                None => false,
            },
        };
        if positive {
            let user: &str = match &users[i] {
                Some(text) => text.as_str(),
                None => "",
            };
            let item: &str = match &items[i] {
                Some(text) => text.as_str(),
                None => "",
            };
            proof {
                reveal_strlit("");
                assert(user@ =~= cell_text(users@[i as int]));
                assert(item@ =~= cell_text(items@[i as int]));
                lemma_intern_step(positive_texts(users@, values, zero, i as int), user@);
                lemma_intern_step(positive_texts(items@, values, zero, i as int), item@);
            }
            let user_idx: usize = intern(&mut user_to_idx, &mut idx_to_user, user);
            let item_idx: usize = intern(&mut item_to_idx, &mut idx_to_item, item);
            triples.push(Triple { user_idx, item_idx });
        }
        i = i + 1;
    }
    if triples.len() == 0 {
        return Err(LoadError::NoPositives);
    }
    Ok(TripleData { triples, user_to_idx, idx_to_user, item_to_idx, idx_to_item })
}

/// A feature value, and whether it equals one up to rounding.
#[derive(Debug, Clone, Copy)]
pub struct FeatureValue<V> {
    pub value: V,
    pub is_one: bool,
}

/// Per-entity feature rows of one side: the active categories, and a dense vector.
pub struct FeatureTable<V> {
    pub cat: Vec<Vec<usize>>,
    pub dense: Vec<Vec<V>>,
    pub num_categories: usize,
    pub dense_dim: usize,
    /// Feature name to category, in order of first occurrence.
    pub cat_feature_to_idx: AHashMap<String, usize>,
    /// Feature name to dense column, in order of first occurrence.
    pub dense_feature_to_idx: AHashMap<String, usize>,
}

/// Lists of the given length, all empty.
pub open spec fn all_empty<T>(lists: Seq<Vec<T>>, n: nat) -> bool {
    lists.len() == n && forall|e: int| 0 <= e < n ==> (#[trigger] lists[e])@.len() == 0
}

impl<V> FeatureTable<V> {
    /// A table without features for `n` entities.
    pub fn empty(n: usize) -> (table: Self)
        ensures
            all_empty(table.cat@, n as nat),
            all_empty(table.dense@, n as nat),
            table.num_categories == 0,
            table.dense_dim == 0,
            id_entries(table.cat_feature_to_idx).dom() == Set::<Seq<char>>::empty(),
            id_entries(table.dense_feature_to_idx).dom() == Set::<Seq<char>>::empty(),
    {
        let mut cat: Vec<Vec<usize>> = Vec::new();
        let mut dense: Vec<Vec<V>> = Vec::new();
        while cat.len() < n
            invariant
                cat@.len() <= n,
                all_empty(cat@, cat@.len()),
                all_empty(dense@, cat@.len()),
            decreases n - cat@.len(),
        {
            cat.push(Vec::new());
            dense.push(Vec::new());
        }
        FeatureTable {
            cat,
            dense,
            num_categories: 0,
            dense_dim: 0,
            cat_feature_to_idx: new_id_map(),
            dense_feature_to_idx: new_id_map(),
        }
    }
}

/// Every one of the first `n` rows named `name` holds a one.
pub open spec fn always_one<V>(
    names: Seq<String>,
    values: Seq<FeatureValue<V>>,
    name: Seq<char>,
    n: int,
) -> bool {
    forall|i: int| 0 <= i < n && (#[trigger] names[i])@ == name ==> values[i].is_one
}

/// The feature is categorical: it never occurs with a value other than one.
pub open spec fn is_categorical<V>(
    names: Seq<String>,
    values: Seq<FeatureValue<V>>,
    name: Seq<char>,
) -> bool {
    always_one(names, values, name, names.len() as int)
}

/// The names among the first `n` that are categorical, or that are not.
pub open spec fn names_of_kind<V>(
    names: Seq<String>,
    values: Seq<FeatureValue<V>>,
    categorical: bool,
    n: int,
) -> Seq<Seq<char>>
    decreases n,
{
    if n <= 0 {
        Seq::empty()
    } else if is_categorical(names, values, names[n - 1]@) == categorical {
        names_of_kind(names, values, categorical, n - 1).push(names[n - 1]@)
    } else {
        names_of_kind(names, values, categorical, n - 1)
    }
}

/// The categories in order of first occurrence.
pub open spec fn categories<V>(
    names: Seq<String>,
    values: Seq<FeatureValue<V>>,
) -> Seq<Seq<char>> {
    first_seen(names_of_kind(names, values, true, names.len() as int))
}

/// The dense columns in order of first occurrence.
pub open spec fn dense_columns<V>(
    names: Seq<String>,
    values: Seq<FeatureValue<V>>,
) -> Seq<Seq<char>> {
    first_seen(names_of_kind(names, values, false, names.len() as int))
}

/// Row `i` belongs to entity `e`.
pub open spec fn row_of_entity(
    ids: Seq<String>,
    entities: Map<Seq<char>, usize>,
    i: int,
    e: int,
) -> bool {
    entities.dom().contains(ids[i]@) && entities[ids[i]@] == e
}

/// The categories of entity `e` in the first `n` rows, each once, in order of first occurrence.
pub open spec fn active_categories<V>(
    ids: Seq<String>,
    names: Seq<String>,
    values: Seq<FeatureValue<V>>,
    entities: Map<Seq<char>, usize>,
    cat_index: Map<Seq<char>, usize>,
    e: int,
    n: int,
) -> Seq<usize>
    decreases n,
{
    if n <= 0 {
        Seq::empty()
    } else {
        let earlier = active_categories(ids, names, values, entities, cat_index, e, n - 1);
        let name = names[n - 1]@;
        if row_of_entity(ids, entities, n - 1, e) && is_categorical(names, values, name)
            && !earlier.contains(cat_index[name]) {
            earlier.push(cat_index[name])
        } else {
            earlier
        }
    }
}

/// The dense vector of entity `e` after the first `n` rows: a later value replaces an earlier one.
pub open spec fn dense_vector<V>(
    ids: Seq<String>,
    names: Seq<String>,
    values: Seq<FeatureValue<V>>,
    entities: Map<Seq<char>, usize>,
    dense_index: Map<Seq<char>, usize>,
    zero: V,
    dim: nat,
    e: int,
    n: int,
) -> Seq<V>
    decreases n,
{
    if n <= 0 {
        Seq::new(dim, |d: int| zero)
    } else {
        let earlier = dense_vector(
            ids,
            names,
            values,
            entities,
            dense_index,
            zero,
            dim,
            e,
            n - 1,
        );
        let name = names[n - 1]@;
        if row_of_entity(ids, entities, n - 1, e) && !is_categorical(names, values, name) {
            earlier.update(dense_index[name] as int, values[n - 1].value)
        } else {
            earlier
        }
    }
}

/// For each distinct name, in order of first occurrence, whether it is categorical.
fn classify<V: Copy>(names: &[String], values: &[FeatureValue<V>]) -> (classified: (
    AHashMap<String, usize>,
    Vec<bool>,
))
    requires
        names@.len() == values@.len(),
    ensures
        forall|i: int|
            0 <= i < names@.len() ==> {
                &&& id_entries(classified.0).dom().contains((#[trigger] names@[i])@)
                &&& id_entries(classified.0)[names@[i]@] < classified.1@.len()
                &&& classified.1@[id_entries(classified.0)[names@[i]@] as int] == is_categorical(
                    names@,
                    values@,
                    names@[i]@,
                )
            },
{
    let mut map = new_id_map();
    let mut seen: Vec<String> = Vec::new();
    let mut ones: Vec<bool> = Vec::new();
    assert(texts(seen@) =~= Seq::empty());
    let mut i: usize = 0;
    while i < names.len()
        invariant
            i <= names@.len(),
            names@.len() == values@.len(),
            is_index_of(id_entries(map), texts(seen@)),
            ones@.len() == seen@.len(),
            forall|k: int| 0 <= k < i ==> texts(seen@).contains((#[trigger] names@[k])@),
            forall|j: int|
                0 <= j < ones@.len() ==> #[trigger] ones@[j] == always_one(
                    names@,
                    values@,
                    texts(seen@)[j],
                    i as int,
                ),
        decreases names@.len() - i,
    {
        let ghost before = texts(seen@);
        let ghost flags = ones@;
        let index: usize = intern(&mut map, &mut seen, names[i].as_str());
        if index == ones.len() {
            ones.push(true);
            proof {
                assert(!before.contains(names@[i as int]@));
                assert forall|k: int| 0 <= k < i implies (#[trigger] names@[k])@
                    != names@[i as int]@ by {
                    assert(before.contains(names@[k]@));
                }
            }
        }
        proof {
            assert(ones@.len() == seen@.len());
            assert(forall|j: int|
                0 <= j < ones@.len() ==> #[trigger] ones@[j] == always_one(
                    names@,
                    values@,
                    texts(seen@)[j],
                    i as int,
                ));
        }
        let ghost extended = ones@;
        if !values[i].is_one {
            ones.set(index, false);
        }
        proof {
            assert forall|j: int| 0 <= j < ones@.len() implies #[trigger] ones@[j] == always_one(
                names@,
                values@,
                texts(seen@)[j],
                i + 1,
            ) by {
                assert(extended[j] == always_one(names@, values@, texts(seen@)[j], i as int));
                assert(texts(seen@).no_duplicates());
                if j != index {
                    assert(texts(seen@)[j] != texts(seen@)[index as int]);
                }
            }
            assert forall|k: int| 0 <= k < i + 1 implies texts(seen@).contains(
                (#[trigger] names@[k])@,
            ) by {
                if k < i {
                    assert(before.contains(names@[k]@));
                    let p = choose|p: int| 0 <= p < before.len() && before[p] == names@[k]@;
                    assert(texts(seen@)[p] == names@[k]@);
                } else {
                    assert(texts(seen@)[index as int] == names@[k]@);
                }
            }
        }
        i = i + 1;
    }
    proof {
        assert forall|k: int| 0 <= k < names@.len() implies {
            &&& id_entries(map).dom().contains((#[trigger] names@[k])@)
            &&& id_entries(map)[names@[k]@] < ones@.len()
            &&& ones@[id_entries(map)[names@[k]@] as int] == is_categorical(
                names@,
                values@,
                names@[k]@,
            )
        } by {
            assert(texts(seen@).contains(names@[k]@));
            index_and_names_are_inverse(id_entries(map), texts(seen@), names@[k]@, 0);
        }
    }
    (map, ones)
}

/// Every name of the wanted kind is in the list of that kind.
proof fn lemma_kind_contains<V>(
    names: Seq<String>,
    values: Seq<FeatureValue<V>>,
    categorical: bool,
    i: int,
    n: int,
)
    requires
        0 <= i < n <= names.len(),
        is_categorical(names, values, names[i]@) == categorical,
    ensures
        names_of_kind(names, values, categorical, n).contains(names[i]@),
    decreases n,
{
    let all = names_of_kind(names, values, categorical, n);
    if i == n - 1 {
        assert(all.last() == names[i]@);
    } else {
        lemma_kind_contains(names, values, categorical, i, n - 1);
        let earlier = names_of_kind(names, values, categorical, n - 1);
        let k = choose|k: int| 0 <= k < earlier.len() && earlier[k] == names[i]@;
        assert(all[k] == names[i]@);
    }
}

/// A list that holds `value` exactly where `contains` says.
fn list_contains(list: &Vec<usize>, value: usize) -> (found: bool)
    ensures
        found == list@.contains(value),
{
    let mut k: usize = 0;
    while k < list.len()
        invariant
            k <= list.len(),
            forall|j: int| 0 <= j < k ==> list@[j] != value,
        decreases list.len() - k,
    {
        if list[k] == value {
            return true;
        }
        k = k + 1;
    }
    false
}

/// Loads a long-format feature table for `num_entities` entities.
///
/// A feature that never occurs with a value other than one is categorical, any other is a dense
/// column. Rows of unknown entities are skipped, but their features are numbered all the same.
#[verifier::rlimit(40)]
pub fn load_features<V: Copy>(
    ids: &[String],
    names: &[String],
    values: &[FeatureValue<V>],
    zero: V,
    entity_to_idx: &AHashMap<String, usize>,
    num_entities: usize,
) -> (loaded: Result<FeatureTable<V>, LoadError>)
    ensures
        ({
            let mismatch = ids@.len() != names@.len() || ids@.len() != values@.len();
            let entities = id_entries(*entity_to_idx);
            let n = names@.len() as int;
            match loaded {
                Err(error) => mismatch && error == LoadError::MismatchedFeatures,
                Ok(table) => {
                    &&& !mismatch
                    &&& is_index_of(
                        id_entries(table.cat_feature_to_idx),
                        categories(names@, values@),
                    )
                    &&& is_index_of(
                        id_entries(table.dense_feature_to_idx),
                        dense_columns(names@, values@),
                    )
                    &&& table.num_categories == categories(names@, values@).len()
                    &&& table.dense_dim == dense_columns(names@, values@).len()
                    &&& table.cat@.len() == num_entities
                    &&& table.dense@.len() == num_entities
                    &&& forall|e: int|
                        0 <= e < num_entities ==> (#[trigger] table.cat@[e])@ == active_categories(
                            ids@,
                            names@,
                            values@,
                            entities,
                            id_entries(table.cat_feature_to_idx),
                            e,
                            n,
                        )
                    &&& forall|e: int|
                        0 <= e < num_entities ==> (#[trigger] table.dense@[e])@ == dense_vector(
                            ids@,
                            names@,
                            values@,
                            entities,
                            id_entries(table.dense_feature_to_idx),
                            zero,
                            dense_columns(names@, values@).len(),
                            e,
                            n,
                        )
                },
            }
        }),
{
    if ids.len() != names.len() || ids.len() != values.len() {
        return Err(LoadError::MismatchedFeatures);
    }
    let n: usize = names.len();
    let ghost entities = id_entries(*entity_to_idx);
    let (kind_map, kinds) = classify(names, values);
    let mut cat_feature_to_idx = new_id_map();
    let mut cat_names: Vec<String> = Vec::new();
    let mut dense_feature_to_idx = new_id_map();
    let mut dense_names: Vec<String> = Vec::new();
    assert(texts(cat_names@) =~= Seq::empty());
    assert(texts(dense_names@) =~= Seq::empty());
    let mut i: usize = 0;
    while i < n
        invariant
            i <= n,
            n == names@.len(),
            forall|i: int|
                0 <= i < names@.len() ==> {
                    &&& id_entries(kind_map).dom().contains((#[trigger] names@[i])@)
                    &&& id_entries(kind_map)[names@[i]@] < kinds@.len()
                    &&& kinds@[id_entries(kind_map)[names@[i]@] as int] == is_categorical(
                        names@,
                        values@,
                        names@[i]@,
                    )
                },
            is_index_of(id_entries(cat_feature_to_idx), texts(cat_names@)),
            is_index_of(id_entries(dense_feature_to_idx), texts(dense_names@)),
            texts(cat_names@) == first_seen(names_of_kind(names@, values@, true, i as int)),
            texts(dense_names@) == first_seen(names_of_kind(names@, values@, false, i as int)),
        decreases n - i,
    {
        let categorical: bool = match id_get(&kind_map, names[i].as_str()) {
            Some(kind) => kinds[kind],
            None => true,
        };
        proof {
            lemma_intern_step(
                names_of_kind(names@, values@, categorical, i as int),
                names@[i as int]@,
            );
        }
        if categorical {
            intern(&mut cat_feature_to_idx, &mut cat_names, names[i].as_str());
        } else {
            intern(&mut dense_feature_to_idx, &mut dense_names, names[i].as_str());
        }
        i = i + 1;
    }
    let num_categories: usize = cat_names.len();
    let dense_dim: usize = dense_names.len();
    let ghost cat_index = id_entries(cat_feature_to_idx);
    let ghost dense_index = id_entries(dense_feature_to_idx);

    let mut cat: Vec<Vec<usize>> = Vec::new();
    let mut dense: Vec<Vec<V>> = Vec::new();
    while cat.len() < num_entities
        invariant
            cat@.len() <= num_entities,
            all_empty(cat@, cat@.len()),
            dense@.len() == cat@.len(),
            forall|e: int|
                0 <= e < dense@.len() ==> (#[trigger] dense@[e])@ == Seq::new(
                    dense_dim as nat,
                    |d: int| zero,
                ),
        decreases num_entities - cat@.len(),
    {
        cat.push(Vec::new());
        let mut row: Vec<V> = Vec::new();
        while row.len() < dense_dim
            invariant
                row@.len() <= dense_dim,
                row@ == Seq::new(row@.len(), |d: int| zero),
            decreases dense_dim - row@.len(),
        {
            row.push(zero);
            assert(row@ =~= Seq::new(row@.len(), |d: int| zero));
        }
        dense.push(row);
    }
    assert forall|e: int| 0 <= e < num_entities implies (#[trigger] cat@[e])@ == active_categories(
        ids@,
        names@,
        values@,
        entities,
        cat_index,
        e,
        0,
    ) by {
        assert(cat@[e]@ =~= Seq::<usize>::empty());
    }

    let mut r: usize = 0;
    while r < n
        invariant
            r <= n,
            n == names@.len(),
            n == ids@.len(),
            n == values@.len(),
            entities == id_entries(*entity_to_idx),
            cat_index == id_entries(cat_feature_to_idx),
            dense_index == id_entries(dense_feature_to_idx),
            dense_dim == dense_names@.len(),
            is_index_of(cat_index, texts(cat_names@)),
            is_index_of(dense_index, texts(dense_names@)),
            texts(cat_names@) == first_seen(names_of_kind(names@, values@, true, n as int)),
            texts(dense_names@) == first_seen(names_of_kind(names@, values@, false, n as int)),
            cat@.len() == num_entities,
            dense@.len() == num_entities,
            forall|e: int|
                0 <= e < num_entities ==> (#[trigger] cat@[e])@ == active_categories(
                    ids@,
                    names@,
                    values@,
                    entities,
                    cat_index,
                    e,
                    r as int,
                ),
            forall|e: int|
                0 <= e < num_entities ==> (#[trigger] dense@[e])@ == dense_vector(
                    ids@,
                    names@,
                    values@,
                    entities,
                    dense_index,
                    zero,
                    dense_dim as nat,
                    e,
                    r as int,
                ),
            forall|e: int| 0 <= e < num_entities ==> (#[trigger] dense@[e])@.len() == dense_dim,
        decreases n - r,
    {
        let ghost cat_before = cat@;
        let ghost dense_before = dense@;
        let ghost name = names@[r as int]@;
        proof {
            lemma_kind_decides(names@, values@, cat_index, dense_index, r as int);
        }
        if let Some(e) = id_get(entity_to_idx, ids[r].as_str()) {
            if e < num_entities {
                if let Some(c) = id_get(&cat_feature_to_idx, names[r].as_str()) {
                    if !list_contains(&cat[e], c) {
                        cat[e].push(c);
                    }
                } else if let Some(d) = id_get(&dense_feature_to_idx, names[r].as_str()) {
                    proof {
                        index_and_names_are_inverse(dense_index, texts(dense_names@), name, 0);
                    }
                    let value: V = values[r].value;
                    dense[e].set(d, value);
                }
            }
        }
        proof {
            assert forall|e: int| 0 <= e < num_entities implies (#[trigger] cat@[e])@
                == active_categories(ids@, names@, values@, entities, cat_index, e, r + 1) by {
                assert(cat_before[e]@ == active_categories(
                    ids@,
                    names@,
                    values@,
                    entities,
                    cat_index,
                    e,
                    r as int,
                ));
            }
            assert forall|e: int| 0 <= e < num_entities implies (#[trigger] dense@[e])@
                == dense_vector(
                ids@,
                names@,
                values@,
                entities,
                dense_index,
                zero,
                dense_dim as nat,
                e,
                r + 1,
            ) by {
                assert(dense_before[e]@ == dense_vector(
                    ids@,
                    names@,
                    values@,
                    entities,
                    dense_index,
                    zero,
                    dense_dim as nat,
                    e,
                    r as int,
                ));
            }
        }
        r = r + 1;
    }
    Ok(
        FeatureTable {
            cat,
            dense,
            num_categories,
            dense_dim,
            cat_feature_to_idx,
            dense_feature_to_idx,
        },
    )
}

/// A name has a category exactly when it is categorical, and a dense column exactly when it is not.
proof fn lemma_kind_decides<V>(
    names: Seq<String>,
    values: Seq<FeatureValue<V>>,
    cat_index: Map<Seq<char>, usize>,
    dense_index: Map<Seq<char>, usize>,
    i: int,
)
    requires
        0 <= i < names.len(),
        is_index_of(cat_index, categories(names, values)),
        is_index_of(dense_index, dense_columns(names, values)),
    ensures
        cat_index.dom().contains(names[i]@) <==> is_categorical(names, values, names[i]@),
        dense_index.dom().contains(names[i]@) <==> !is_categorical(names, values, names[i]@),
{
    let n = names.len() as int;
    let name = names[i]@;
    lemma_first_seen(names_of_kind(names, values, true, n));
    lemma_first_seen(names_of_kind(names, values, false, n));
    assert(categories(names, values).contains(name) <==> names_of_kind(
        names,
        values,
        true,
        n,
    ).contains(name));
    assert(dense_columns(names, values).contains(name) <==> names_of_kind(
        names,
        values,
        false,
        n,
    ).contains(name));
    if is_categorical(names, values, name) {
        lemma_kind_contains(names, values, true, i, n);
        lemma_kind_only(names, values, false, name, n);
    } else {
        lemma_kind_contains(names, values, false, i, n);
        lemma_kind_only(names, values, true, name, n);
    }
}

proof fn lemma_kind_only<V>(
    names: Seq<String>,
    values: Seq<FeatureValue<V>>,
    categorical: bool,
    name: Seq<char>,
    n: int,
)
    requires
        is_categorical(names, values, name) != categorical,
        n <= names.len(),
    ensures
        !names_of_kind(names, values, categorical, n).contains(name),
    decreases n,
{
    if n > 0 {
        lemma_kind_only(names, values, categorical, name, n - 1);
        let earlier = names_of_kind(names, values, categorical, n - 1);
        let all = names_of_kind(names, values, categorical, n);
        if all.contains(name) {
            let k = choose|k: int| 0 <= k < all.len() && all[k] == name;
            if k < earlier.len() {
                assert(earlier[k] == name);
            }
        }
    }
}

/// Categories and dense columns never share a name.
pub proof fn kinds_are_disjoint<V>(
    names: Seq<String>,
    values: Seq<FeatureValue<V>>,
    name: Seq<char>,
)
    ensures
        !(categories(names, values).contains(name) && dense_columns(names, values).contains(name)),
{
    let n = names.len() as int;
    lemma_first_seen(names_of_kind(names, values, true, n));
    lemma_first_seen(names_of_kind(names, values, false, n));
    lemma_kind_only(names, values, !is_categorical(names, values, name), name, n);
    assert(categories(names, values).contains(name) <==> names_of_kind(
        names,
        values,
        true,
        n,
    ).contains(name));
    assert(dense_columns(names, values).contains(name) <==> names_of_kind(
        names,
        values,
        false,
        n,
    ).contains(name));
}

/// The positive rows: all without a value column, and else those whose value is present and not at
/// most zero; their texts are listed in order, a missing one as the empty text.
pub proof fn positive_rows_are_listed<V: PartialOrd>(
    column: Seq<Option<String>>,
    values: Option<&[Option<V>]>,
    zero: V,
    n: nat,
)
    requires
        n <= column.len(),
    ensures
        positive_texts(column, values, zero, n as int) == places(
            n,
            |i: int|
                values is None || (values.unwrap()@[i] is Some
                    && !values.unwrap()@[i].unwrap().is_le(&zero)),
        ).map_values(
            |i: int|
                if column[i] is Some {
                    column[i].unwrap()@
                } else {
                    Seq::empty()
                },
        ),
{
    lemma_collects(
        n,
        |i: int|
            values is None || (values.unwrap()@[i] is Some && !values.unwrap()@[i].unwrap().is_le(
                &zero,
            )),
        |i: int|
            if column[i] is Some {
                column[i].unwrap()@
            } else {
                Seq::empty()
            },
        |k: int| positive_texts(column, values, zero, k),
    );
}

/// A feature is a category where all of its rows hold a one, and a dense column where one of them
/// does not; the names of either kind are listed in the order of the rows.
pub proof fn kinds_go_by_all_rows_of_a_name<V>(
    names: Seq<String>,
    values: Seq<FeatureValue<V>>,
    categorical: bool,
)
    ensures
        names_of_kind(names, values, categorical, names.len() as int) == places(
            names.len(),
            |i: int|
                categorical == (forall|j: int|
                    0 <= j < names.len() && (#[trigger] names[j])@ == names[i]@
                        ==> values[j].is_one),
        ).map_values(|i: int| names[i]@),
{
    let holds = |i: int|
        categorical == (forall|j: int|
            0 <= j < names.len() && (#[trigger] names[j])@ == names[i]@ ==> values[j].is_one);
    lemma_collects(
        names.len(),
        holds,
        |i: int| names[i]@,
        |k: int| names_of_kind(names, values, categorical, k),
    );
}

/// Row `i` is one of entity `e` and names a category, or a dense column.
pub open spec fn is_row_of_kind<V>(
    ids: Seq<String>,
    names: Seq<String>,
    values: Seq<FeatureValue<V>>,
    entities: Map<Seq<char>, usize>,
    e: int,
    categorical: bool,
    i: int,
) -> bool {
    &&& entities.dom().contains(ids[i]@) && entities[ids[i]@] == e
    &&& categorical == (forall|j: int|
        0 <= j < names.len() && (#[trigger] names[j])@ == names[i]@ ==> values[j].is_one)
}

/// An entity's categories are those that its rows name, each once.
pub proof fn entities_have_the_categories_of_their_rows<V>(
    ids: Seq<String>,
    names: Seq<String>,
    values: Seq<FeatureValue<V>>,
    entities: Map<Seq<char>, usize>,
    cat_index: Map<Seq<char>, usize>,
    e: int,
    n: int,
)
    requires
        0 <= n <= names.len(),
    ensures
        active_categories(ids, names, values, entities, cat_index, e, n).no_duplicates(),
        forall|c: usize| #[trigger]
            active_categories(ids, names, values, entities, cat_index, e, n).contains(c)
                <==> exists|i: int|
                0 <= i < n && #[trigger] is_row_of_kind(
                    ids,
                    names,
                    values,
                    entities,
                    e,
                    true,
                    i,
                ) && cat_index[names[i]@] == c,
    decreases n,
{
    if n > 0 {
        entities_have_the_categories_of_their_rows(
            ids,
            names,
            values,
            entities,
            cat_index,
            e,
            n - 1,
        );
        let earlier = active_categories(ids, names, values, entities, cat_index, e, n - 1);
        let all = active_categories(ids, names, values, entities, cat_index, e, n);
        let last = cat_index[names[n - 1]@];
        let here = is_row_of_kind(ids, names, values, entities, e, true, n - 1);
        assert(here == (row_of_entity(ids, entities, n - 1, e) && is_categorical(
            names,
            values,
            names[n - 1]@,
        )));
        assert forall|c: usize| #[trigger] all.contains(c) <==> earlier.contains(c) || (here && c
            == last) by {
            if all.contains(c) {
                let k = choose|k: int| 0 <= k < all.len() && all[k] == c;
                if k < earlier.len() {
                    assert(earlier[k] == c);
                }
            }
            if earlier.contains(c) {
                let k = choose|k: int| 0 <= k < earlier.len() && earlier[k] == c;
                assert(all[k] == c);
            }
            if here && c == last && !earlier.contains(c) {
                assert(all[earlier.len() as int] == c);
            }
        }
        assert forall|c: usize| #[trigger] all.contains(c) <==> exists|i: int|
            0 <= i < n && #[trigger] is_row_of_kind(
                ids,
                names,
                values,
                entities,
                e,
                true,
                i,
            ) && cat_index[names[i]@] == c by {
            if all.contains(c) {
                if earlier.contains(c) {
                    let i = choose|i: int|
                        0 <= i < n - 1 && #[trigger] is_row_of_kind(
                            ids,
                            names,
                            values,
                            entities,
                            e,
                            true,
                            i,
                        ) && cat_index[names[i]@] == c;
                    assert(is_row_of_kind(ids, names, values, entities, e, true, i));
                }
            }
        }
    }
}

/// An entity's dense vector holds, in each column, the value of the last row that names it, and zero
/// where no row does.
pub proof fn dense_vectors_hold_the_last_values<V>(
    ids: Seq<String>,
    names: Seq<String>,
    values: Seq<FeatureValue<V>>,
    entities: Map<Seq<char>, usize>,
    dense_index: Map<Seq<char>, usize>,
    zero: V,
    dim: nat,
    e: int,
    n: int,
    d: int,
)
    requires
        0 <= n <= names.len(),
        0 <= d < dim,
        forall|i: int|
            0 <= i < names.len() && #[trigger] is_row_of_kind(
                ids,
                names,
                values,
                entities,
                e,
                false,
                i,
            ) ==> dense_index[names[i]@] < dim,
    ensures
        ({
            let vector = dense_vector(
                ids,
                names,
                values,
                entities,
                dense_index,
                zero,
                dim,
                e,
                n,
            );
            &&& vector.len() == dim
            &&& forall|i: int|
                0 <= i < n && #[trigger] is_row_of_kind(
                    ids,
                    names,
                    values,
                    entities,
                    e,
                    false,
                    i,
                ) && dense_index[names[i]@] == d && (forall|k: int|
                    i < k < n && #[trigger] is_row_of_kind(
                        ids,
                        names,
                        values,
                        entities,
                        e,
                        false,
                        k,
                    ) ==> dense_index[names[k]@] != d) ==> vector[d] == values[i].value
            &&& (forall|k: int|
                0 <= k < n && #[trigger] is_row_of_kind(
                    ids,
                    names,
                    values,
                    entities,
                    e,
                    false,
                    k,
                ) ==> dense_index[names[k]@] != d) ==> vector[d] == zero
        }),
    decreases n,
{
    if n > 0 {
        dense_vectors_hold_the_last_values(
            ids,
            names,
            values,
            entities,
            dense_index,
            zero,
            dim,
            e,
            n - 1,
            d,
        );
        assert(is_row_of_kind(ids, names, values, entities, e, false, n - 1) == (row_of_entity(
            ids,
            entities,
            n - 1,
            e,
        ) && !is_categorical(names, values, names[n - 1]@)));
    }
}

} // verus!
