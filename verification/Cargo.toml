[package]
name = "pi_web"
version = "0.1.0"
edition = "2021"
publish = false

[dependencies]
regex = "=1.13.1"
sha2 = "=0.10.9"
serde = { version = "=1.0.229", features = ["derive"] }
serde_json = "=1.0.154"
futures = "=0.3.34"
libc = "=0.2.191"
base64 = "=0.22.1"
chrono = { version = "0.4", default-features = false, features = ["std"] }
