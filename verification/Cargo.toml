[package]
name = "boardgames"
version = "0.1.0"
edition = "2021"
publish = false

[dependencies]
serde = { version = "1", features = ["derive"] }
serde_json = "1"
napi = { version = "2", default-features = false, features = ["napi4"] }
napi-derive = "2"
