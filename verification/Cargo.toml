[package]
name = "ai_bridge"
version = "0.1.0"
edition = "2021"
publish = false

[dependencies]
regex = "1"
sha2 = "0.10"
hex = "0.4"
serde = { version = "1", features = ["derive"] }
serde_json = "1"
serde_norway = "*"
jsonschema = { version = "*", default-features = false }
ipnet = "2"
chrono = { version = "0.4", default-features = false, features = ["clock", "std"] }
rand = "0.9"
anyhow = "1"
