//! Two-tower models: batches, features, mappings and the file frame.

pub mod batches;
pub mod features;
pub mod frame;
pub mod meta;
