[package]
name = "warp_folding"
version = "0.1.0"
edition = "2021"
publish = false

[dependencies]
sha3 = "0.10"
rand = "0.8"
rand_chacha = "0.3"
thiserror = "1"
