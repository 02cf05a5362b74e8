[package]
name = "script_utils"
version = "0.1.0"
edition = "2021"
publish = false

[dependencies]
anyhow = "=1.0.104"
chrono = "=0.4.45"
dirs = "=7.0.0"
procfs = "*"
serde = { version = "=1.0.229", features = ["derive"] }
serde_json = "=1.0.151"
subprocess = "=0.2.15"
