[package]
name = "salsa"
version = "0.1.0"
edition = "2021"
publish = false

[dependencies]
orx-concurrent-vec = "*"
parking_lot = "*"
rustc-hash = "*"
