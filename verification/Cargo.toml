[package]
name = "wirepf"
version = "0.1.0"
edition = "2021"
publish = false

[dependencies]
anyhow = "1"
aya = "0.13"
axum = "0.8"
clap = { version = "4", features = ["derive", "env"] }
comfy-table = "7"
dirs = "*"
env_logger = "0.11"
log = "0.4"
network-types = "*"
reqwest = { version = "0.12", default-features = false, features = ["json"] }
serde = { version = "1", features = ["derive"] }
serde_json = "1"
tokio = { version = "1", features = ["full"] }
toml = "0.8"
