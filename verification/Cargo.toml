[package]
name = "textkit"
version = "0.1.0"
edition = "2021"
publish = false

[dependencies]
regex = "1"
ignore = "0.4"
clap = { version = "4", features = ["derive"] }
serde = { version = "1", features = ["derive"] }
serde_json = "1"
serde_yaml = "0.9"
toml = "0.8"
chrono = { version = "0.4", features = ["serde"] }
anyhow = "1"
shell-words = "1"
tempfile = "3"
