[package]
name = "ocrtool"
version = "0.1.0"
edition = "2021"
publish = false

[dependencies]
anyhow = "1"
lopdf = "=0.29.0"
serde = { version = "1", features = ["derive"] }
serde_json = "1"
