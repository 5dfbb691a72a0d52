[package]
name = "v2socks"
version = "0.1.0"
edition = "2021"
publish = false

[dependencies]
rust-crypto = "=0.2.36"
anyhow = "=1.0.104"
rand = "=0.8.8"
