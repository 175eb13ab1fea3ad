[package]
name = "rimru"
version = "0.1.0"
edition = "2021"
publish = false

[dependencies]
xml-rs = "0.8"
shellexpand = "3"
dirs = "6"
anyhow = "1"
log = "0.4"
env_logger = "0.11"
serde = { version = "1", features = ["derive"] }
toml = "0.8"
r2d2 = "0.8"
r2d2_sqlite = { version = "*", features = ["bundled"] }
