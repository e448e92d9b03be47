[package]
name = "stalker"
version = "0.1.0"
edition = "2021"
publish = false

[dependencies]
anyhow = "=1.0.104"
clap = { version = "=4.6.7", features = ["derive"] }
derive_more = "=0.99.20"
env_logger = "=0.10.2"
log = "=0.4.35"
rayon = "=1.12.0"
serde = { version = "=1.0.229", features = ["derive"] }
serde_json = "=1.0.154"
serde_with = { version = "=3.24.0", features = ["hex"] }
serfig = "=0.1.0"
sled = "=0.34.7"
strum = { version = "=0.24.1", features = ["derive"] }
strum_macros = "=0.24.3"
thiserror = "=1.0.69"
toml = "=0.7.8"
