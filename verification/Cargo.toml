[package]
name = "rust_phi"
version = "0.1.0"
edition = "2021"
publish = false

[dependencies]
minilp = "*"
nalgebra = "*"
