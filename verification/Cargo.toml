[package]
name = "respkv"
version = "0.1.0"
edition = "2021"
publish = false

[dependencies]
serde = { version = "*", features = ["derive"] }
serde_json = { version = "*", features = ["preserve_order"] }
tokio = { version = "*", features = ["full"] }
tokio-postgres = "*"
config = "*"
