[package]
name = "rocml"
version = "0.1.0"
edition = "2021"
publish = false

[dependencies]
half = "2"
lru = "*"
serde = { version = "1", features = ["derive"] }
serde_json = "1"
