[package]
name = "route_stats"
version = "0.1.0"
edition = "2021"
publish = false

[dependencies]
pyo3 = { version = "0.20", features = ["extension-module", "abi3-py38"] }
