[package]
name = "fastsql2json"
version = "0.1.0"
edition = "2021"
publish = false

[dependencies]
mysql = { version = "=28.0.3", default-features = false, features = ["default-rust"] }
tokio = { version = "=1.53.2", features = ["macros", "rt-multi-thread"] }
clap = { version = "=4.6.7", features = ["derive"] }
serde = { version = "=1.0.229", features = ["derive"] }
toml = "=1.1.6"
serde_json = "=1.0.151"
walkdir = "=2.5.0"
fs2 = "=0.4.3"
tempfile = "=3.27.0"
log = "=0.4.34"
env_logger = "=0.11.11"
