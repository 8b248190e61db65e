[package]
name = "mtrx_rs"
version = "0.1.0"
edition = "2021"
publish = false

[dependencies]
num_cpus = "*"
pyo3 = "*"
rayon = "*"
rustc_apfloat = "*"
