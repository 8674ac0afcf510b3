[package]
name = "bloom"
version = "0.1.0"
edition = "2021"
publish = false

[dependencies]
bitvec = "*"
siphasher = "*"
tokio = { version = "1", features = ["rt-multi-thread"] }
