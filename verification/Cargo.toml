[package]
name = "bare_http"
version = "0.1.0"
edition = "2021"
publish = false

[dependencies]
async-std = { version = "1", features = ["attributes"] }
futures = "0.3"
serde = { version = "1", features = ["derive"] }
serde_json = "1"
