//! The common interface of recommender models.

pub mod two_tower;

use crate::data_pipeline::Mappings;
use crate::model::ValidationReport;
use crate::text::{join, joined};
use vstd::prelude::*;

verus! {

/// The family of a model, which decides the shape of its input.
#[derive(Debug, Clone, Copy, PartialEq, Eq, Structural)]
pub enum ModelKind {
    Ease,
    SasRec,
    TwoTower,
}

/// The input of a prediction. A model that does not support a variant returns an error.
///
/// `V` is the type of interaction and feature values, `F` that of scores and dense features.
pub enum ModelInput<'a, V, F> {
    /// Item values and user-feature values, each by index.
    Sparse { interactions: &'a [(usize, V)], user_features: &'a [(usize, V)] },
    /// Item indices in chronological order, oldest first.
    Sequence { history: &'a [usize] },
    /// A user with categorical and dense features.
    TowerUser { user_idx: Option<usize>, cat_features: &'a [usize], dense_features: &'a [F] },
}

/// Why a model gave no prediction.
pub struct ModelError {
    pub message: String,
}

/// Top-k retrieval without scoring the whole catalogue.
pub trait RetrievalIndex<V, F> {
    /// The best `top_k` items for `input`, without those in `exclude`.
    fn retrieve(&self, input: ModelInput<V, F>, top_k: usize, exclude: &[usize]) -> Result<
        Vec<(usize, F)>,
        ModelError,
    >;
}

/// What every recommender model can do.
pub trait RecModel<V, F> {
    /// The family of the model.
    fn kind(&self) -> ModelKind;

    /// The number of items in the catalogue, which is the length of a score vector.
    fn num_items(&self) -> usize;

    /// The mappings between identifiers and indices.
    fn item_mapping(&self) -> &Mappings;

    /// Scores every item of the catalogue, or returns an error if the input's variant is not
    /// supported.
    fn predict_scores(&self, input: ModelInput<V, F>) -> Result<Vec<F>, ModelError>;

    /// The `top_k` items most similar to an item.
    fn predict_similar_items(&self, item_idx: usize, top_k: usize) -> Result<
        Vec<(usize, F)>,
        ModelError,
    >;

    /// Checks the model's state.
    fn validate(&self) -> ValidationReport;

    /// Translates named feature values into category indices and a dense vector. Models without
    /// feature tables return nothing.
    fn resolve_user_features(&self, features: &[(String, V)]) -> (resolved: (Vec<usize>, Vec<F>))
        default_ensures
            resolved.0@.len() == 0 && resolved.1@.len() == 0,
    {
        (Vec::new(), Vec::new())
    }

    /// The index through which the model retrieves items without scoring all of them. Models
    /// without one are scored in full.
    fn retrieval_index(&self) -> (index: Option<&dyn RetrievalIndex<V, F>>)
        default_ensures
            index is None,
    {
        None
    }
}

/// The name of a kind.
pub open spec fn kind_name(kind: ModelKind) -> Seq<char> {
    match kind {
        ModelKind::Ease => "Ease"@,
        ModelKind::SasRec => "SasRec"@,
        ModelKind::TwoTower => "TwoTower"@,
    }
}

/// The ending of the prediction method for a kind.
pub open spec fn kind_suffix(kind: ModelKind) -> Seq<char> {
    match kind {
        ModelKind::Ease => "ease"@,
        ModelKind::SasRec => "sasrec"@,
        ModelKind::TwoTower => "two_tower"@,
    }
}

impl ModelKind {
    /// The name of this kind.
    pub fn name(self) -> (name: &'static str)
        ensures
            name@ == kind_name(self),
    {
        match self {
            ModelKind::Ease => "Ease",
            ModelKind::SasRec => "SasRec",
            ModelKind::TwoTower => "TwoTower",
        }
    }

    /// The ending of the prediction method for this kind.
    pub fn method_suffix(self) -> (suffix: &'static str)
        ensures
            suffix@ == kind_suffix(self),
    {
        match self {
            ModelKind::Ease => "ease",
            ModelKind::SasRec => "sasrec",
            ModelKind::TwoTower => "two_tower",
        }
    }
}

/// The input of an item model.
pub struct SparseInput<'a, V> {
    pub interactions: &'a [(usize, V)],
    pub user_features: &'a [(usize, V)],
}

/// The input of a two-tower model.
pub struct TowerInput<'a, F> {
    pub user_idx: Option<usize>,
    pub cat_features: &'a [usize],
    pub dense_features: &'a [F],
}

/// The name of an input's variant.
pub open spec fn input_name<V, F>(input: ModelInput<V, F>) -> Seq<char> {
    match input {
        ModelInput::Sparse { .. } => "Sparse"@,
        ModelInput::Sequence { .. } => "Sequence"@,
        ModelInput::TowerUser { .. } => "TowerUser"@,
    }
}

/// The text of a refused input.
pub open spec fn refusal(
    model: Seq<char>,
    found: Seq<char>,
    expected: Seq<char>,
) -> Seq<char> {
    model + " does not support ModelInput::"@ + found + "; expected ModelInput::"@ + expected
}

/// The error of a refused input.
fn refuse(model: &str, found: &str, expected: &str) -> (error: ModelError)
    ensures
        error.message@ == refusal(model@, found@, expected@),
{
    let parts: [&str; 5] = [
        model,
        " does not support ModelInput::",
        found,
        "; expected ModelInput::",
        expected,
    ];
    proof {
        reveal_with_fuel(joined, 6);
        assert(joined(parts@) =~= refusal(model@, found@, expected@));
    }
    ModelError { message: join(&parts) }
}

/// The input of an item model; other variants are refused.
pub fn sparse_input<'a, V, F>(input: ModelInput<'a, V, F>) -> (taken: Result<
    SparseInput<'a, V>,
    ModelError,
>)
    ensures
        match taken {
            Ok(sparse) => input matches ModelInput::Sparse { interactions, user_features }
                && sparse.interactions == interactions && sparse.user_features == user_features,
            Err(error) => !(input is Sparse) && error.message@ == refusal(
                "EASE"@,
                input_name(input),
                "Sparse"@,
            ),
        },
{
    match input {
        ModelInput::Sparse { interactions, user_features } => Ok(
            SparseInput { interactions, user_features },
        ),
        ModelInput::Sequence { .. } => Err(refuse("EASE", "Sequence", "Sparse")),
        ModelInput::TowerUser { .. } => Err(refuse("EASE", "TowerUser", "Sparse")),
    }
}

/// The input of a two-tower model; other variants are refused.
pub fn tower_input<'a, V, F>(input: ModelInput<'a, V, F>) -> (taken: Result<
    TowerInput<'a, F>,
    ModelError,
>)
    ensures
        match taken {
            Ok(tower) => input matches ModelInput::TowerUser {
                user_idx,
                cat_features,
                dense_features,
            } && tower.user_idx == user_idx && tower.cat_features == cat_features
                && tower.dense_features == dense_features,
            Err(error) => !(input is TowerUser) && error.message@ == refusal(
                "Two-Tower"@,
                input_name(input),
                "TowerUser"@,
            ),
        },
{
    match input {
        ModelInput::TowerUser { user_idx, cat_features, dense_features } => Ok(
            TowerInput { user_idx, cat_features, dense_features },
        ),
        ModelInput::Sparse { .. } => Err(refuse("Two-Tower", "Sparse", "TowerUser")),
        ModelInput::Sequence { .. } => Err(refuse("Two-Tower", "Sequence", "TowerUser")),
    }
}

} // verus!
