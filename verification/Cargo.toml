[package]
name = "abi_cache"
version = "0.1.0"
edition = "2021"
publish = false

[dependencies]
hex = "=0.4.3"
tokio = { version = "=1.53.2", default-features = false, features = ["rt"] }
