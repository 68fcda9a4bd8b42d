[package]
name = "goose_session"
version = "0.1.0"
edition = "2021"
publish = false

[dependencies]
regex = "1"
anyhow = "1"
chrono = { version = "0.4", features = ["serde"] }
cliclack = "0.3"
etcetera = "0.8"
serde = { version = "1", features = ["derive"] }
serde_json = "1"
serde_yaml = "0.9"
