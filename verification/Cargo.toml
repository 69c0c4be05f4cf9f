[package]
name = "fractal_utils"
version = "0.1.0"
edition = "2021"
publish = false

[dependencies]
rust-base58 = "*"
rustc-serialize = "*"

[dev-dependencies]
rand = "*"
