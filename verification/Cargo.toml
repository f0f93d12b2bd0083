[package]
name = "sparse_life"
version = "0.1.0"
edition = "2021"
publish = false

[dependencies]
anyhow = "*"
clap = { version = "*", features = ["derive"] }
crossterm = "*"
ctrlc = "*"
lazy_static = "*"
rand = "*"
rustc-hash = "*"
