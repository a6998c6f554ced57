[package]
name = "simzip"
version = "0.1.0"
edition = "2021"
publish = false

[dependencies]
libdeflater = "*"

[dev-dependencies]
zip = { version = "*", default-features = false, features = ["deflate"] }
