//! User features, mappings and self-checks of a two-tower model.

use crate::data::triples::{TripleData, COLD_START_USER_IDX};
use crate::data_pipeline::Mappings;
use crate::ids::{id_entries, id_get, id_insert, is_index_of, new_id_map, texts};
use crate::model::ValidationReport;
use crate::models::two_tower::batches::padded;
use crate::models::ModelError;
use crate::order::comparable;
use crate::selection::{lemma_collects, places};
use crate::serving::filter_sort_top_k;
use crate::text::{decimal, decimal_text, join, joined};
use crate::top_k::candidate_scores;
use ahash::AHashMap;
use vstd::prelude::*;

verus! {

/// A feature of a user by name, its value as the tower takes it, and whether it was zero before.
#[derive(Debug, Clone)]
pub struct NamedFeature<F> {
    pub name: String,
    pub value: F,
    pub is_zero: bool,
}

/// The features of a user as the tower takes them.
pub struct TowerFeatures<F> {
    pub cat: Vec<usize>,
    pub dense: Vec<F>,
}

/// The categories of the first `n` features: those of known categorical names, if not zero.
pub open spec fn active_categories<F>(
    features: Seq<NamedFeature<F>>,
    categories: Map<Seq<char>, usize>,
    n: int,
) -> Seq<usize>
    decreases n,
{
    if n <= 0 {
        Seq::empty()
    } else {
        let earlier = active_categories(features, categories, n - 1);
        let last = features[n - 1];
        if categories.dom().contains(last.name@) && !last.is_zero {
            earlier.push(categories[last.name@])
        } else {
            earlier
        }
    }
}

/// The dense vector after the first `n` features: each known dense name that is no category fills
/// its column.
pub open spec fn dense_vector<F>(
    features: Seq<NamedFeature<F>>,
    categories: Map<Seq<char>, usize>,
    columns: Map<Seq<char>, usize>,
    dense_dim: nat,
    zero: F,
    n: int,
) -> Seq<F>
    decreases n,
{
    if n <= 0 {
        Seq::new(dense_dim, |c: int| zero)
    } else {
        let earlier = dense_vector(features, categories, columns, dense_dim, zero, n - 1);
        let last = features[n - 1];
        if !categories.dom().contains(last.name@) && columns.dom().contains(last.name@)
            && columns[last.name@] < earlier.len() {
            earlier.update(columns[last.name@] as int, last.value)
        } else {
            earlier
        }
    }
}

/// Translates named features into what the user tower takes. Unknown names are skipped.
pub fn resolve_user_features<F: Copy>(
    features: &[NamedFeature<F>],
    categories: &AHashMap<String, usize>,
    columns: &AHashMap<String, usize>,
    dense_dim: usize,
    zero: F,
) -> (resolved: TowerFeatures<F>)
    ensures
        resolved.cat@ == active_categories(
            features@,
            id_entries(*categories),
            features@.len() as int,
        ),
        resolved.dense@ == dense_vector(
            features@,
            id_entries(*categories),
            id_entries(*columns),
            dense_dim as nat,
            zero,
            features@.len() as int,
        ),
{
    let mut cat: Vec<usize> = Vec::new();
    let mut dense: Vec<F> = Vec::new();
    while dense.len() < dense_dim
        invariant
            dense@.len() <= dense_dim,
            dense@ == Seq::new(dense@.len(), |c: int| zero),
        decreases dense_dim - dense@.len(),
    {
        dense.push(zero);
        assert(dense@ =~= Seq::new(dense@.len(), |c: int| zero));
    }
    let mut i: usize = 0;
    while i < features.len()
        invariant
            i <= features@.len(),
            cat@ == active_categories(features@, id_entries(*categories), i as int),
            dense@ == dense_vector(
                features@,
                id_entries(*categories),
                id_entries(*columns),
                dense_dim as nat,
                zero,
                i as int,
            ),
        decreases features@.len() - i,
    {
        let feature = &features[i];
        match id_get(categories, feature.name.as_str()) {
            Some(slot) => {
                if !feature.is_zero {
                    cat.push(slot);
                }
            },
            None => {
                if let Some(column) = id_get(columns, feature.name.as_str()) {
                    if column < dense.len() {
                        dense.set(column, feature.value);
                    }
                }
            },
        }
        i = i + 1;
    }
    TowerFeatures { cat, dense }
}

/// The embedding row of a user; without an identifier the cold-start row.
pub fn user_row(user_idx: Option<usize>) -> (row: usize)
    ensures
        row == (match user_idx {
            Some(idx) => idx,
            None => COLD_START_USER_IDX,
        }),
{
    match user_idx {
        Some(idx) => idx,
        None => COLD_START_USER_IDX,
    }
}

/// The dense vector that the tower is given: cut or filled up to `dim`, and one zero where the model
/// has no dense features.
pub fn fit_dense<F: Copy>(dense: &[F], dim: usize, zero: F) -> (fitted: Vec<F>)
    ensures
        fitted@ == (if dim == 0 {
            seq![zero]
        } else {
            padded(dense@, dim as int, zero)
        }),
{
    let mut fitted: Vec<F> = Vec::new();
    if dim == 0 {
        fitted.push(zero);
        assert(fitted@ =~= seq![zero]);
        return fitted;
    }
    let ghost all = padded(dense@, dim as int, zero);
    let mut i: usize = 0;
    while i < dim
        invariant
            i <= dim,
            all == padded(dense@, dim as int, zero),
            fitted@ == all.take(i as int),
        decreases dim - i,
    {
        if i < dense.len() {
            fitted.push(dense[i]);
        } else {
            fitted.push(zero);
        }
        assert(fitted@ =~= all.take(i + 1));
        i = i + 1;
    }
    assert(fitted@ =~= all);
    fitted
}

/// The mappings of a trained model: those of its examples, without feature mappings.
pub fn build_mappings(data: TripleData) -> (mappings: Mappings)
    ensures
        mappings.user_to_idx == data.user_to_idx,
        mappings.idx_to_user == data.idx_to_user,
        mappings.item_to_idx == data.item_to_idx,
        mappings.idx_to_item == data.idx_to_item,
        id_entries(mappings.user_feature_to_idx).dom() == Set::<Seq<char>>::empty(),
        mappings.idx_to_user_feature@.len() == 0,
        id_entries(mappings.item_feature_to_idx).dom() == Set::<Seq<char>>::empty(),
        mappings.idx_to_item_feature@.len() == 0,
{
    Mappings {
        user_to_idx: data.user_to_idx,
        idx_to_user: data.idx_to_user,
        item_to_idx: data.item_to_idx,
        idx_to_item: data.idx_to_item,
        user_feature_to_idx: new_id_map(),
        idx_to_user_feature: Vec::new(),
        item_feature_to_idx: new_id_map(),
        idx_to_item_feature: Vec::new(),
    }
}

/// `entries` maps each name from `first` on to its index; of equal names the last one counts.
pub open spec fn numbers_names(
    entries: Map<Seq<char>, usize>,
    names: Seq<Seq<char>>,
    first: int,
    n: int,
) -> bool {
    &&& forall|name: Seq<char>|
        #[trigger] entries.dom().contains(name) <==> exists|i: int|
            first <= i < n && #[trigger] names[i] == name
    &&& forall|name: Seq<char>| #[trigger]
        entries.dom().contains(name) ==> {
            &&& first <= entries[name] < n
            &&& names[entries[name] as int] == name
            &&& forall|i: int| entries[name] < i < n ==> #[trigger] names[i] != name
        }
}

/// Numbers the names from `first` on.
fn number_names(names: &Vec<String>, first: usize) -> (entries: AHashMap<String, usize>)
    ensures
        numbers_names(
            id_entries(entries),
            texts(names@),
            first as int,
            names@.len() as int,
        ),
{
    let mut entries = new_id_map();
    let mut i: usize = first;
    let n: usize = names.len();
    while i < n
        invariant
            first <= i,
            i <= n || i == first,
            n == names@.len(),
            numbers_names(
                id_entries(entries),
                texts(names@),
                first as int,
                (if i < n {
                    i as int
                } else {
                    n as int
                }),
            ),
        decreases n - i,
    {
        let ghost before = id_entries(entries);
        let ghost all = texts(names@);
        let ghost name = names@[i as int]@;
        id_insert(&mut entries, names[i].clone(), i);
        proof {
            let after = id_entries(entries);
            assert(all[i as int] == name);
            assert forall|key: Seq<char>|
                #[trigger] after.dom().contains(key) <==> exists|k: int|
                    first <= k < i + 1 && #[trigger] all[k] == key by {
                if before.dom().contains(key) {
                    let k = choose|k: int| first <= k < i && #[trigger] all[k] == key;
                    assert(first <= k < i + 1 && all[k] == key);
                }
                if key == name {
                    assert(first <= i < i + 1 && all[i as int] == key);
                }
                if exists|k: int| first <= k < i + 1 && #[trigger] all[k] == key {
                    let k = choose|k: int| first <= k < i + 1 && #[trigger] all[k] == key;
                    if k < i {
                        assert(before.dom().contains(key));
                    }
                }
            }
            assert forall|key: Seq<char>| #[trigger] after.dom().contains(key) implies {
                &&& first <= after[key] < i + 1
                &&& all[after[key] as int] == key
                &&& forall|k: int| after[key] < k < i + 1 ==> #[trigger] all[k] != key
            } by {
                if key != name {
                    assert(before.dom().contains(key));
                }
            }
        }
        i = i + 1;
    }
    entries
}

/// The mappings of a loaded model, from the names in index order. The cold-start row has no name
/// that a user could be found under.
pub fn mappings_from_names(idx_to_user: Vec<String>, idx_to_item: Vec<String>) -> (mappings:
    Mappings)
    ensures
        numbers_names(
            id_entries(mappings.user_to_idx),
            texts(idx_to_user@),
            COLD_START_USER_IDX + 1,
            idx_to_user@.len() as int,
        ),
        mappings.idx_to_user == idx_to_user,
        numbers_names(
            id_entries(mappings.item_to_idx),
            texts(idx_to_item@),
            0,
            idx_to_item@.len() as int,
        ),
        mappings.idx_to_item == idx_to_item,
        id_entries(mappings.user_feature_to_idx).dom() == Set::<Seq<char>>::empty(),
        mappings.idx_to_user_feature@.len() == 0,
        id_entries(mappings.item_feature_to_idx).dom() == Set::<Seq<char>>::empty(),
        mappings.idx_to_item_feature@.len() == 0,
{
    let user_to_idx = number_names(&idx_to_user, COLD_START_USER_IDX + 1);
    let item_to_idx = number_names(&idx_to_item, 0);
    Mappings {
        user_to_idx,
        idx_to_user,
        item_to_idx,
        idx_to_item,
        user_feature_to_idx: new_id_map(),
        idx_to_user_feature: Vec::new(),
        item_feature_to_idx: new_id_map(),
        idx_to_item_feature: Vec::new(),
    }
}

/// No user of a loaded model resolves to the cold-start row.
pub proof fn cold_start_row_is_reserved(
    entries: Map<Seq<char>, usize>,
    names: Seq<Seq<char>>,
    user: Seq<char>,
)
    requires
        numbers_names(entries, names, COLD_START_USER_IDX + 1, names.len() as int),
        entries.dom().contains(user),
    ensures
        entries[user] != COLD_START_USER_IDX,
{
}

/// Distinct names that are numbered from the start are found under their index, as when the model
/// was trained.
pub proof fn loaded_numbering_is_the_trained_one(
    entries: Map<Seq<char>, usize>,
    trained: Map<Seq<char>, usize>,
    names: Seq<Seq<char>>,
)
    requires
        is_index_of(trained, names),
        numbers_names(entries, names, 0, names.len() as int),
    ensures
        entries == trained,
{
    assert forall|name: Seq<char>|
        #[trigger] entries.dom().contains(name) <==> trained.dom().contains(name) by {
        if trained.dom().contains(name) {
            assert(names.contains(name));
            let i = choose|i: int| 0 <= i < names.len() && names[i] == name;
            assert(0 <= i < names.len() && names[i] == name);
        }
        if entries.dom().contains(name) {
            let i = choose|i: int| 0 <= i < names.len() && #[trigger] names[i] == name;
            assert(names.contains(name));
        }
    }
    assert forall|name: Seq<char>| #[trigger] entries.dom().contains(name) implies entries[name]
        == trained[name] by {
        let i = entries[name] as int;
        assert(trained[names[i]] == i);
    }
    assert(entries =~= trained);
}

/// Distinct users that are numbered behind the cold-start row are found under their index, as when
/// the model was trained.
pub proof fn loaded_users_are_the_trained_ones(
    entries: Map<Seq<char>, usize>,
    trained: Map<Seq<char>, usize>,
    names: Seq<Seq<char>>,
)
    requires
        numbers_names(entries, names, COLD_START_USER_IDX + 1, names.len() as int),
        forall|i: int|
            COLD_START_USER_IDX < i < names.len() ==> trained.dom().contains(#[trigger] names[i])
                && trained[names[i]] == i,
        forall|name: Seq<char>| #[trigger]
            trained.dom().contains(name) ==> exists|i: int|
                COLD_START_USER_IDX < i < names.len() && #[trigger] names[i] == name,
    ensures
        entries == trained,
{
    assert forall|name: Seq<char>|
        #[trigger] entries.dom().contains(name) <==> trained.dom().contains(name) by {
        if trained.dom().contains(name) {
            let i = choose|i: int|
                COLD_START_USER_IDX < i < names.len() && #[trigger] names[i] == name;
            assert(COLD_START_USER_IDX + 1 <= i < names.len() && names[i] == name);
        }
    }
    assert forall|name: Seq<char>| #[trigger] entries.dom().contains(name) implies entries[name]
        == trained[name] by {
        assert(names[entries[name] as int] == name);
    }
    assert(entries =~= trained);
}

/// The text of an index outside the catalogue.
pub open spec fn out_of_range_message(item_idx: usize, num_items: usize) -> Seq<char> {
    "item_idx "@ + decimal_text(item_idx as nat) + " out of range (num_items = "@ + decimal_text(
        num_items as nat,
    ) + ")"@
}

/// Ranks the other items by their similarity to an item. `scores` are its similarities to the
/// catalogue.
pub fn rank_similar<F: PartialOrd + Copy>(
    scores: Vec<F>,
    item_idx: usize,
    num_items: usize,
    top_k: usize,
) -> (similar: Result<Vec<(usize, F)>, ModelError>)
    requires
        item_idx < num_items ==> comparable(candidate_scores(scores@, set![item_idx])),
    ensures
        match similar {
            Ok(ranked) => item_idx < num_items && ranked@ == crate::top_k::top_k(
                scores@,
                set![item_idx],
                top_k,
            ),
            Err(error) => item_idx >= num_items && error.message@ == out_of_range_message(
                item_idx,
                num_items,
            ),
        },
{
    if item_idx >= num_items {
        let idx = decimal(item_idx as u64);
        let n = decimal(num_items as u64);
        let parts: [&str; 5] = [
            "item_idx ",
            idx.as_str(),
            " out of range (num_items = ",
            n.as_str(),
            ")",
        ];
        proof {
            reveal_with_fuel(joined, 6);
            assert(joined(parts@) =~= out_of_range_message(item_idx, num_items));
        }
        return Err(ModelError { message: join(&parts) });
    }
    let excluded: [usize; 1] = [item_idx];
    proof {
        assert(excluded@.contains(excluded@[0]));
        assert(excluded@.to_set() =~= set![item_idx]);
    }
    Ok(filter_sort_top_k(scores, &excluded, top_k))
}

/// The text of a catalogue of the wrong size.
pub open spec fn rows_message(rows: usize, num_items: usize) -> Seq<char> {
    "catalog matrix rows "@ + decimal_text(rows as nat) + " != num_items "@ + decimal_text(
        num_items as nat,
    )
}

/// The messages of a self-check.
pub open spec fn tower_messages(rows: usize, num_items: usize) -> Seq<Seq<char>> {
    (if num_items == 0 {
        seq!["Two-Tower model has zero items"@]
    } else {
        Seq::empty()
    }) + (if rows != num_items {
        seq![rows_message(rows, num_items)]
    } else {
        Seq::empty()
    })
}

/// Checks a model: it has items, and a catalogue row for each.
pub fn validate(rows: usize, num_items: usize) -> (report: ValidationReport)
    ensures
        report.passed == (num_items > 0 && rows == num_items),
        texts(report.messages@) == tower_messages(rows, num_items),
{
    let mut messages: Vec<String> = Vec::new();
    let mut passed: bool = true;
    assert(texts(messages@) =~= Seq::empty());
    if num_items == 0 {
        passed = false;
        messages.push("Two-Tower model has zero items".to_owned());
        assert(texts(messages@) =~= seq!["Two-Tower model has zero items"@]);
    }
    let ghost before = texts(messages@);
    if rows != num_items {
        passed = false;
        let found = decimal(rows as u64);
        let n = decimal(num_items as u64);
        let parts: [&str; 4] = [
            "catalog matrix rows ",
            found.as_str(),
            " != num_items ",
            n.as_str(),
        ];
        proof {
            reveal_with_fuel(joined, 5);
            assert(joined(parts@) =~= rows_message(rows, num_items));
        }
        messages.push(join(&parts));
        assert(texts(messages@) =~= before.push(rows_message(rows, num_items)));
    }
    assert(texts(messages@) =~= tower_messages(rows, num_items));
    ValidationReport { passed, messages }
}

/// The categories of a user are those of the known categorical names whose value is not zero, in
/// order.
pub proof fn nonzero_categories_are_active<F>(
    features: Seq<NamedFeature<F>>,
    categories: Map<Seq<char>, usize>,
)
    ensures
        active_categories(features, categories, features.len() as int) == places(
            features.len(),
            |i: int| categories.dom().contains(features[i].name@) && !features[i].is_zero,
        ).map_values(|i: int| categories[features[i].name@]),
{
    lemma_collects(
        features.len(),
        |i: int| categories.dom().contains(features[i].name@) && !features[i].is_zero,
        |i: int| categories[features[i].name@],
        |k: int| active_categories(features, categories, k),
    );
}

/// Feature `i` is for dense column `c`: its name is that of the column and of no category.
pub open spec fn fills_column<F>(
    features: Seq<NamedFeature<F>>,
    categories: Map<Seq<char>, usize>,
    columns: Map<Seq<char>, usize>,
    c: int,
    i: int,
) -> bool {
    &&& !categories.dom().contains(features[i].name@)
    &&& columns.dom().contains(features[i].name@)
    &&& columns[features[i].name@] == c
}

/// A user's dense vector holds in each column the value of the last feature for it, and zero where
/// there is none.
pub proof fn user_vectors_hold_the_last_values<F>(
    features: Seq<NamedFeature<F>>,
    categories: Map<Seq<char>, usize>,
    columns: Map<Seq<char>, usize>,
    dense_dim: nat,
    zero: F,
    n: int,
    c: int,
)
    requires
        0 <= n <= features.len(),
        0 <= c < dense_dim,
    ensures
        ({
            let vector = dense_vector(features, categories, columns, dense_dim, zero, n);
            &&& vector.len() == dense_dim
            &&& forall|i: int|
                0 <= i < n && #[trigger] fills_column(features, categories, columns, c, i) && (
                forall|k: int|
                    i < k < n ==> !#[trigger] fills_column(features, categories, columns, c, k))
                    ==> vector[c] == features[i].value
            &&& (forall|k: int|
                0 <= k < n ==> !#[trigger] fills_column(features, categories, columns, c, k))
                ==> vector[c] == zero
        }),
    decreases n,
{
    if n > 0 {
        user_vectors_hold_the_last_values(
            features,
            categories,
            columns,
            dense_dim,
            zero,
            n - 1,
            c,
        );
        assert(fills_column(features, categories, columns, c, n - 1) == (
        !categories.dom().contains(features[n - 1].name@) && columns.dom().contains(
            features[n - 1].name@,
        ) && columns[features[n - 1].name@] == c));
    }
}

/// A vector fitted to a dimension is its beginning, filled up with zeros.
pub proof fn fitted_vectors_are_cut_or_filled<F>(dense: Seq<F>, dim: int, zero: F)
    requires
        0 <= dim,
    ensures
        dim <= dense.len() ==> padded(dense, dim, zero) == dense.take(dim),
        dim > dense.len() ==> padded(dense, dim, zero) == dense + Seq::new(
            (dim - dense.len()) as nat,
            |c: int| zero,
        ),
{
    if dim <= dense.len() {
        assert(padded(dense, dim, zero) =~= dense.take(dim));
    } else {
        assert(padded(dense, dim, zero) =~= dense + Seq::new(
            (dim - dense.len()) as nat,
            |c: int| zero,
        ));
    }
}

/// The row of a user that is not known is row zero.
pub proof fn cold_start_row_is_the_first()
    ensures
        COLD_START_USER_IDX == 0,
{
}

/// Of equal names the last one is found, and each name that is not equal to a later one under its
/// own index.
pub proof fn the_last_of_equal_names_is_found(
    entries: Map<Seq<char>, usize>,
    names: Seq<Seq<char>>,
    first: int,
    n: int,
    i: int,
)
    requires
        numbers_names(entries, names, first, n),
        first <= i < n <= names.len(),
        forall|k: int| i < k < n ==> #[trigger] names[k] != names[i],
    ensures
        entries.dom().contains(names[i]),
        entries[names[i]] == i,
{
    let name = names[i];
    assert(entries.dom().contains(name));
    let found = entries[name] as int;
    assert(names[found] == name);
    if found < i {
        assert(names[i] != name);
    }
}

/// A model without items is told so, and so is one whose catalogue has another number of rows;
/// nothing is said of any other.
pub proof fn messages_tell_what_is_wrong(rows: usize, num_items: usize)
    ensures
        tower_messages(rows, num_items).len() == 0 <==> num_items > 0 && rows == num_items,
        num_items == 0 && rows == 0 ==> tower_messages(rows, num_items)
            == seq!["Two-Tower model has zero items"@],
        num_items > 0 && rows != num_items ==> tower_messages(rows, num_items)
            == seq![rows_message(rows, num_items)],
        num_items == 0 && rows > 0 ==> tower_messages(rows, num_items)
            == seq!["Two-Tower model has zero items"@, rows_message(rows, num_items)],
{
    if num_items == 0 && rows > 0 {
        assert(tower_messages(rows, num_items) =~= seq![
            "Two-Tower model has zero items"@,
            rows_message(rows, num_items),
        ]);
    } else if num_items == 0 {
        assert(tower_messages(rows, num_items) =~= seq!["Two-Tower model has zero items"@]);
    } else if rows != num_items {
        assert(tower_messages(rows, num_items) =~= seq![rows_message(rows, num_items)]);
    }
}

} // verus!
