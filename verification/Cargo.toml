[package]
name = "vult"
version = "0.1.0"
edition = "2021"
publish = false

[dependencies]
anyhow = "=1.0.104"
base64 = "=0.23.1"
bincode = "=1.3.3"
clap = { version = "=4.6.7", features = ["derive"] }
log = "=0.4.34"
pretty_env_logger = "=0.5.0"
rand = "=0.10.3"
rocket = { version = "=0.5.1", features = ["json"] }
rusqlite = { version = "=0.40.2", features = ["bundled"] }
serde = { version = "=1.0.229", features = ["derive"] }
serde_json = "=1.0.151"
toml = "=1.1.6"
