[package]
name = "sync_engine"
version = "0.1.0"
edition = "2021"
publish = false

[dependencies]
ed25519-dalek = "2"
hex = "0.4"
thiserror = "1"
rmp-serde = "1"
serde = { version = "1", features = ["derive"] }
rusqlite = { version = "*", features = ["bundled"] }
tokio-rusqlite = "*"
