[package]
name = "volsync"
version = "0.1.0"
edition = "2021"
publish = false

[dependencies]
tokio = { version = "1", features = ["full"] }
flume = "*"
serde = { version = "1", features = ["derive"] }
serde_yaml = "*"
clap = { version = "4", features = ["derive"] }
env_logger = "*"
log = "*"
indicatif = "*"
thiserror = "*"
