[package]
name = "backend"
version = "0.1.0"
edition = "2021"
publish = false

[dependencies]
sha2 = "=0.10.9"
sha3 = "=0.10.9"
base64 = "=0.22.1"
serde = { version = "=1.0.229", features = ["derive"] }
serde_json = "1"
toml = "=0.8.23"
tokio = { version = "=1.54.1", features = ["fs", "sync", "rt", "macros", "time"] }
anyhow = "=1.0.104"
thiserror = "=2.0.21"
hex = "=0.4.3"
reqwest = { version = "0.12", default-features = false, features = ["json"] }
