[package]
name = "zap"
version = "0.1.0"
edition = "2021"
publish = false

[dependencies]
anyhow = "1"
blake3 = "*"
chacha20poly1305 = "0.10"
clap = { version = "4", features = ["derive"] }
futures-util = "0.3"
hex = "0.4"
rand = "0.8"
sha2 = "0.10"
spake2 = "*"
tar = "*"
tokio = { version = "1", features = ["full"] }
tokio-tungstenite = "*"
