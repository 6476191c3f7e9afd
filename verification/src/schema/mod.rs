//! Plain records of the source tables.

pub mod engagement;
