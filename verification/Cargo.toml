[package]
name = "deepwise"
version = "0.1.0"
edition = "2021"
publish = false

[dependencies]
rand = "*"
rmp-serde = "*"
serde_json = "*"
pyo3 = "*"
serde-pyobject = "*"
