[package]
name = "ghostdriver_client"
version = "0.1.0"
edition = "2021"
publish = false

[dependencies]
rustc-serialize = "0.3"
hyper = "0.10"
cookie = { version = "0.2", default-features = false }
