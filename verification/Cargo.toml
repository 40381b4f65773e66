[package]
name = "lcf"
version = "0.1.0"
edition = "2021"
publish = false

[dependencies]
bio = "1"
pyo3 = "0.15"
rand = { version = "0.8", features = ["small_rng"] }
