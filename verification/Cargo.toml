[package]
name = "sericum"
version = "0.1.0"
edition = "2021"
publish = false

[dependencies]
id-arena = "2.2.1"
rustc-hash = "1.1.0"
rand = "0.7"
