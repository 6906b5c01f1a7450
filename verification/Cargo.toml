[package]
name = "chacha20_rng"
version = "0.1.0"
edition = "2021"
publish = false

[dependencies]
chacha20 = "*"
serde_json = "*"
