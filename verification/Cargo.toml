[package]
name = "bonnie"
version = "0.2.1"
edition = "2021"
publish = false

[dependencies]
toml = "=1.1.6"
dotenv = "=0.15.0"
home = "=0.5.12"
serde = { version = "=1.0.229", features = ["derive"] }
serde_json = "=1.0.151"

[dev-dependencies]
tempfile = "*"
