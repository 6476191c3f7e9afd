//! Verified core of a recommender-system toolkit.

pub mod ann;
pub mod data;
pub mod data_pipeline;
pub mod data_validation;
pub mod evaluation;
pub mod gram;
pub mod groups;
pub mod ids;
pub mod layout;
pub mod matrix;
pub mod metrics;
pub mod model;
pub mod models;
pub mod numeric;
pub mod onnx_export;
pub mod order;
pub mod sampling;
pub mod schema;
pub mod schemas;
pub mod selection;
pub mod serialization;
pub mod serving;
pub mod text;
pub mod top_k;
pub mod training;
pub mod transform;
pub mod tuning;
pub mod user_pairs;
pub mod weighting;
