[package]
name = "visual_rank_engine"
version = "0.1.0"
edition = "2021"
publish = false

[dependencies]
hnsw_rs = "*"
rayon = "1"
pyo3 = { version = "0.22", features = ["extension-module", "abi3-py38"] }
