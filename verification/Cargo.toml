[package]
name = "skillranker"
version = "0.1.0"
edition = "2021"
publish = false

[dependencies]
blake3 = "=1.8.7"
clap = { version = "=4.6.7", features = ["derive"] }
nix = { version = "=0.31.3", features = ["dir", "fs", "user", "term"] }
rusqlite = { version = "=0.41.1", features = ["bundled"] }
serde = { version = "=1.0.229", features = ["derive"] }
serde_json = "=1.0.154"
toml = "=1.1.8"
