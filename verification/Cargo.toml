[package]
name = "context_switch"
version = "0.1.0"
edition = "2021"
publish = false

[dependencies]
intervaltree = "=0.2.7"
chrono = "=0.4.45"
url = "=2.5.8"
serde = { version = "=1.0.229", features = ["derive"] }
serde_yaml = "=0.9.34"
app_dirs = "=1.2.1"
