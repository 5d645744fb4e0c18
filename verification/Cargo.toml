[package]
name = "hookguard"
version = "0.1.1"
edition = "2021"
publish = false

[dependencies]
toml = "*"
