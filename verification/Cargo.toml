[package]
name = "dragonblaze"
version = "0.1.0"
edition = "2021"
publish = false

[dependencies]
anyhow = "*"
artnet_protocol = "*"
log = "*"
serde_json = "*"
simple_logger = "*"
websocket = { version = "*", default-features = false, features = ["sync"] }
