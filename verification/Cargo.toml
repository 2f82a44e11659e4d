[package]
name = "luno"
version = "0.1.0"
edition = "2021"
publish = false

[dependencies]
rustc-hash = "2"
slab = "=0.4.12"
