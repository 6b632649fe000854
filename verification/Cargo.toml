[package]
name = "galoy_client"
version = "0.1.0"
edition = "2021"
publish = false

[dependencies]
anyhow = "1"
log = "0.4"
reqwest = { version = "0.11", default-features = false, features = ["blocking", "json"] }
rust_decimal = "1"
serde = { version = "1", features = ["derive"] }
serde_json = "1"
