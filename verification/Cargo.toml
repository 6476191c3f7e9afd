[package]
name = "kzn_recsys"
version = "0.1.0"
edition = "2021"
publish = false

[dependencies]
ahash = "=0.8.12"
rand = "=0.8.8"
anyhow = "1"
bincode = "=1.3.3"
serde = { version = "1", features = ["derive"] }
serde_json = "1"
rayon = "1"
nalgebra = { version = "0.34", default-features = false, features = ["std"] }
log = "0.4"
sprs = { version = "0.11", default-features = false }
pyo3 = { version = "0.27", features = ["abi3-py38"] }
