//! What a two-tower model keeps besides its weights.

use crate::data::triples::{FeatureTable, TripleData};
use crate::ids::{entries_of, id_entries, list_entries, listing_is_lossless, lists_entries};
use crate::serialization::{copy_names, copy_values};
use vstd::prelude::*;

verus! {

/// The sizes, names and item features of a trained model. `T` is the type of its temperature.
pub struct TwoTowerMeta<T, F> {
    pub num_users: usize,
    pub num_items: usize,
    pub num_user_categories: usize,
    pub num_item_categories: usize,
    pub user_dense_dim: usize,
    pub item_dense_dim: usize,
    pub embedding_dim: usize,
    pub temperature: T,
    pub idx_to_user: Vec<String>,
    pub idx_to_item: Vec<String>,
    /// The categories of each item, so that the catalogue can be embedded without the table.
    pub item_cat: Vec<Vec<usize>>,
    /// The dense features of each item.
    pub item_dense: Vec<Vec<F>>,
    /// The category of each categorical user feature, by name.
    pub user_cat_feature_to_idx: Vec<(String, usize)>,
    /// The column of each dense user feature, by name.
    pub user_dense_feature_to_idx: Vec<(String, usize)>,
}

/// `meta` describes a model that was trained on `data` and the two feature tables.
pub open spec fn describes<T, F>(
    meta: TwoTowerMeta<T, F>,
    data: TripleData,
    user_ft: FeatureTable<F>,
    item_ft: FeatureTable<F>,
) -> bool {
    &&& meta.num_users == data.idx_to_user@.len()
    &&& meta.num_items == data.idx_to_item@.len()
    &&& meta.num_user_categories == user_ft.num_categories
    &&& meta.num_item_categories == item_ft.num_categories
    &&& meta.user_dense_dim == user_ft.dense_dim
    &&& meta.item_dense_dim == item_ft.dense_dim
    &&& meta.idx_to_user@ == data.idx_to_user@
    &&& meta.idx_to_item@ == data.idx_to_item@
    &&& same_lists(meta.item_cat@, item_ft.cat@)
    &&& same_lists(meta.item_dense@, item_ft.dense@)
    &&& lists_entries(meta.user_cat_feature_to_idx@, id_entries(user_ft.cat_feature_to_idx))
    &&& lists_entries(meta.user_dense_feature_to_idx@, id_entries(user_ft.dense_feature_to_idx))
}

/// The lists hold the same values.
pub open spec fn same_lists<A>(a: Seq<Vec<A>>, b: Seq<Vec<A>>) -> bool {
    &&& a.len() == b.len()
    &&& forall|i: int| 0 <= i < b.len() ==> (#[trigger] a[i])@ == b[i]@
}

/// A copy of lists.
fn copy_lists<A: Copy>(lists: &Vec<Vec<A>>) -> (copy: Vec<Vec<A>>)
    ensures
        same_lists(copy@, lists@),
{
    let mut copy: Vec<Vec<A>> = Vec::new();
    let mut i: usize = 0;
    while i < lists.len()
        invariant
            i <= lists@.len(),
            copy@.len() == i,
            forall|k: int| 0 <= k < i ==> (#[trigger] copy@[k])@ == lists@[k]@,
        decreases lists@.len() - i,
    {
        copy.push(copy_values(&lists[i]));
        i = i + 1;
    }
    copy
}

/// Describes a model that was trained on `data` and the two feature tables.
pub fn describe<T, F: Copy>(
    data: &TripleData,
    user_ft: &FeatureTable<F>,
    item_ft: &FeatureTable<F>,
    embedding_dim: usize,
    temperature: T,
) -> (meta: TwoTowerMeta<T, F>)
    ensures
        describes(meta, *data, *user_ft, *item_ft),
        meta.embedding_dim == embedding_dim,
        meta.temperature == temperature,
{
    TwoTowerMeta {
        num_users: data.num_users(),
        num_items: data.num_items(),
        num_user_categories: user_ft.num_categories,
        num_item_categories: item_ft.num_categories,
        user_dense_dim: user_ft.dense_dim,
        item_dense_dim: item_ft.dense_dim,
        embedding_dim,
        temperature,
        idx_to_user: copy_names(&data.idx_to_user),
        idx_to_item: copy_names(&data.idx_to_item),
        item_cat: copy_lists(&item_ft.cat),
        item_dense: copy_lists(&item_ft.dense),
        user_cat_feature_to_idx: list_entries(&user_ft.cat_feature_to_idx),
        user_dense_feature_to_idx: list_entries(&user_ft.dense_feature_to_idx),
    }
}

/// The user features of a described model are found under the numbers they were trained with.
pub proof fn described_features_are_the_trained_ones<T, F>(
    meta: TwoTowerMeta<T, F>,
    data: TripleData,
    user_ft: FeatureTable<F>,
    item_ft: FeatureTable<F>,
)
    requires
        describes(meta, data, user_ft, item_ft),
    ensures
        entries_of(
            meta.user_cat_feature_to_idx@,
            meta.user_cat_feature_to_idx@.len() as int,
        ) == id_entries(user_ft.cat_feature_to_idx),
        entries_of(
            meta.user_dense_feature_to_idx@,
            meta.user_dense_feature_to_idx@.len() as int,
        ) == id_entries(user_ft.dense_feature_to_idx),
{
    listing_is_lossless(meta.user_cat_feature_to_idx@, id_entries(user_ft.cat_feature_to_idx));
    listing_is_lossless(
        meta.user_dense_feature_to_idx@,
        id_entries(user_ft.dense_feature_to_idx),
    );
}

/// The sizes, names and item features of a described model are those that it was trained with.
pub proof fn described_values_are_the_trained_ones<T, F>(
    meta: TwoTowerMeta<T, F>,
    data: TripleData,
    user_ft: FeatureTable<F>,
    item_ft: FeatureTable<F>,
    i: int,
)
    requires
        describes(meta, data, user_ft, item_ft),
    ensures
        meta.num_users == data.idx_to_user@.len(),
        meta.num_items == data.idx_to_item@.len(),
        meta.idx_to_user@ == data.idx_to_user@,
        meta.idx_to_item@ == data.idx_to_item@,
        meta.num_user_categories == user_ft.num_categories,
        meta.num_item_categories == item_ft.num_categories,
        meta.user_dense_dim == user_ft.dense_dim,
        meta.item_dense_dim == item_ft.dense_dim,
        meta.item_cat@.len() == item_ft.cat@.len(),
        meta.item_dense@.len() == item_ft.dense@.len(),
        0 <= i < item_ft.cat@.len() ==> meta.item_cat@[i]@ == item_ft.cat@[i]@,
        0 <= i < item_ft.dense@.len() ==> meta.item_dense@[i]@ == item_ft.dense@[i]@,
{
}

} // verus!
