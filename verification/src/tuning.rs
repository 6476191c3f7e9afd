//! Hyperparameter search with cross-validation.

pub mod folds;
pub mod grid;
pub mod search;
pub mod trial;
