//! Model-specific training data.

pub mod sequences;
pub mod triples;
