[package]
name = "crab_code"
version = "0.1.0"
edition = "2021"
publish = false

[dependencies]
serde = { version = "=1.0.229", features = ["derive"] }
serde_json = "=1.0.154"
similar = "=2.7.0"
toml = "=1.1.8"
ignore = "=0.4.34"
globset = "=0.4.21"
regex = "1"
jsonc-parser = { version = "*", features = ["serde"] }
