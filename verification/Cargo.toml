[package]
name = "today"
version = "0.1.0"
edition = "2021"
publish = false

[dependencies]
chrono = "=0.4.45"
csv = "=1.4.0"
serde = { version = "=1.0.229", features = ["derive"] }
toml = "=1.2.1"
clap = { version = "=4.6.7", features = ["derive"] }
dirs = "=7.0.0"
log = "=0.4.35"
env_logger = "=0.11.11"
reqwest = { version = "=0.12.28", default-features = false, features = ["blocking", "json", "rustls-tls"] }
sqlite = "=0.37.4"
