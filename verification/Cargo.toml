[package]
name = "obsidian_rs"
version = "0.1.0"
edition = "2021"
publish = false

[dependencies]
env_logger = "*"
home = "*"
log = "*"
notify = "*"
serde = { version = "*", features = ["derive"] }
serde_yaml = "*"
toml = "*"
walkdir = "*"
