[package]
name = "protohackers"
version = "0.1.0"
edition = "2021"
publish = false

[dependencies]
regex = "1"
sorted-vec = "*"
serde = { version = "1", features = ["derive"] }
serde_json = "1"
tokio = { version = "1", features = ["full"] }
