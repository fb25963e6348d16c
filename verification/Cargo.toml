[package]
name = "skillstore"
version = "0.1.0"
edition = "2021"
publish = false

[dependencies]
anyhow = "1"
comfy-table = "7"
serde = { version = "1", features = ["derive"] }
serde_json = "1"
