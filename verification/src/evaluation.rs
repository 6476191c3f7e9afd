//! Splitting interactions into training and test rows, and evaluating models on the test rows.

pub mod split_laws;
pub mod splits;
pub mod harness;
pub mod laws;
pub mod means;
