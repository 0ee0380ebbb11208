[package]
name = "zeta"
version = "0.1.0"
edition = "2021"
publish = false

[dependencies]
ed25519-dalek = { version = "2", features = ["rand_core"] }
k256 = "0.13"
bitcoin_hashes = "0.14"
bs58 = "0.5"
rand = "0.8"
chrono = "0.4"
serde = { version = "1", features = ["derive"] }
serde_json = "1"
bincode = "1"
tokio = { version = "1", features = ["full"] }
axum = "0.7"
futures-util = "0.3"
tokio-stream = { version = "0.1", features = ["sync"] }
async-trait = "0.1"
anyhow = "1"
clap = { version = "4", features = ["derive"] }
