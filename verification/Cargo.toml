[package]
name = "rusty_perm"
version = "0.2.0"
edition = "2021"
publish = false

[dev-dependencies]
rand = "0.8"
