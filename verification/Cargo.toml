[package]
name = "djroom"
version = "0.1.0"
edition = "2021"
publish = false

[dependencies]
websocket = "*"

[dev-dependencies]
serde_json = "*"
