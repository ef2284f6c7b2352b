[package]
name = "flexi_logger"
version = "0.1.0"
edition = "2021"
publish = false

[dependencies]
log = { version = "=0.4.34", features = ["std"] }
regex = "=1.13.1"
serde = "=1.0.229"
serde_derive = "=1.0.229"
toml = "=0.5.11"
notify = "=4.0.18"
