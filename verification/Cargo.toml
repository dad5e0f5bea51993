[package]
name = "liteparse_c"
version = "0.1.0"
edition = "2021"
publish = false

[dependencies]
image = { version = "0.25", default-features = false, features = ["png"] }
serde_json = "1"
tokio = { version = "1", features = ["rt-multi-thread"] }
