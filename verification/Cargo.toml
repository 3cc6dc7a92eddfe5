[package]
name = "raftrust"
version = "0.1.0"
edition = "2021"
publish = false

[dependencies]
heapless = "0.8"
postcard = "1"
rand = "*"
serde = { version = "1", features = ["derive"] }
serde_json = "1"
serde_yaml = "*"
tokio = { version = "1", features = ["full"] }
