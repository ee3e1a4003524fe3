[package]
name = "hlanalysis"
version = "0.1.0"
edition = "2021"
publish = false

[dependencies]
bincode = "1"
serde = { version = "1", features = ["derive"] }
serde_json = "1"
rayon = "1"
pyo3 = "0.20"
