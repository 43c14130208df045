[package]
name = "chiral_network"
version = "0.1.0"
edition = "2021"
publish = false

[dependencies]
hex = "0.4"
libp2p = { version = "0.54", features = ["tcp", "noise", "yamux", "ping", "tokio", "macros", "ed25519"] }
rs_merkle = "1.4"
serde = { version = "1", features = ["derive"] }
serde_json = "1"
sha2 = "0.10"
tokio = { version = "1", features = ["fs", "io-util", "sync", "rt"] }
tracing = "0.1"
