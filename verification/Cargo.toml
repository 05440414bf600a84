[package]
name = "gossip"
version = "0.1.0"
edition = "2021"
publish = false

[dependencies]
rand = "0.8"
serde = { version = "1", features = ["derive"] }
serde_json = "1"
tracing = "0.1"
tracing-subscriber = { version = "0.3", features = ["env-filter"] }
textplots = { version = "0.8", default-features = false }
rgb = "0.8"
console = "0.15"
