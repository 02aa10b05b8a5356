[package]
name = "moneylens-converter-rs"
version = "0.1.0"
edition = "2021"
publish = false

[dependencies]
spreadsheet-ods = "*"
chrono = "*"
serde = { version = "*", features = ["derive"] }
serde_json = "*"
clap = { version = "*", features = ["derive"] }
env_logger = "*"
log = "*"
