[package]
name = "md0"
version = "0.1.0"
edition = "2021"
publish = false

[dependencies]
html-escape = "0.2"
pyo3 = { version = "0.22", features = ["extension-module"] }

[dev-dependencies]
regex = "1"
