[package]
name = "whirl_tf"
version = "0.1.0"
edition = "2021"
publish = false

[dependencies]
nalgebra = "*"
pyo3 = "*"
thiserror = "*"
transforms = "*"
