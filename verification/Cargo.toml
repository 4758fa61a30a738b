[package]
name = "dryer"
version = "0.1.0"
edition = "2021"
publish = false

[dependencies]
sha2 = "0.10"
semver = "1"
serde = { version = "1", features = ["derive"] }
serde_json = "1"
serde_yaml = "0.9"
yaml-rust2 = "*"
nusb = "0.1"
