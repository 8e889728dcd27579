[package]
name = "notevault"
version = "0.1.0"
edition = "2021"
publish = false

[dependencies]
anyhow = "*"
chrono = "*"
clap = { version = "*", features = ["cargo", "derive"] }
clap-verbosity-flag = "*"
env_logger = "*"
log = "*"
serde = { version = "*", features = ["derive"] }
serde_json = "*"
systemd-journal-logger = "*"
toml = "*"
