[package]
name = "redelay"
version = "0.1.0"
edition = "2021"
publish = false

[dependencies]
skiplist = "=0.5.1"
uuid = { version = "=0.8.2", features = ["v4"] }
serde = { version = "=1.0.229", features = ["derive"] }
serde_json = "=1.0.154"
redis-module = "=2.0.8"
