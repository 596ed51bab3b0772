[package]
name = "hl-capture"
version = "0.1.0"
edition = "2021"
publish = false

[dependencies]
blake3 = "1"
hex = "0.4"
sha2 = "0.10"
serde = { version = "1", features = ["derive"] }
serde_json = "1"
toml = "0.8"
async-nats = "*"
rustix = { version = "*", features = ["fs"] }
