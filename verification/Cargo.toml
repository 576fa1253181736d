[package]
name = "shredstream_proxy"
version = "0.1.0"
edition = "2021"
publish = false

[dependencies]
arc-swap = "*"
clap = { version = "*", features = ["derive", "env"] }
crossbeam-channel = "*"
env_logger = "*"
hostname = "*"
log = "*"
rand = "*"
serde = { version = "*", features = ["derive"] }
serde_json = "*"
signal-hook = "*"
thiserror = "*"
toml = "*"
