[package]
name = "indicators"
version = "0.1.0"
edition = "2021"
publish = false

[dependencies]
ndarray = { version = "*", features = ["rayon"] }
numpy = "*"
pyo3 = "*"
