[package]
name = "live_image"
version = "0.1.0"
edition = "2021"
publish = false

[dependencies]
anyhow = "1"
bytes = "1"
ignition-config = "0.2"
nix = "0.23"
openat-ext = "0.2"
serde = { version = "1", features = ["derive"] }
serde_json = "1"
serde_yaml = "0.8"
tempfile = "3"
