[package]
name = "toy_blockchain"
version = "0.1.0"
edition = "2021"
publish = false

[dependencies]
sha2 = "0.10"
hex = "0.4"
base64 = "0.22"
ed25519-dalek = "2"
merkle_light = "*"
chrono = "0.4"
bincode = "1.3"
serde = { version = "1", features = ["derive"] }
sled = "0.34"
tokio = { version = "1", features = ["full"] }
axum = "0.7"
anyhow = "1"
thiserror = "1"
