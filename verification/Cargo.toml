[package]
name = "pi_switch"
version = "0.1.0"
edition = "2021"
publish = false

[dependencies]
axum = "=0.7.9"
base64 = "=0.22.1"
chrono = "=0.4.45"
dirs = "=5.0.1"
futures-util = "=0.3.34"
libc = "=0.2.191"
rand = "=0.8.8"
ratatui = "=0.29.0"
reqwest = { version = "=0.12.28", default-features = false, features = ["blocking", "json", "rustls-tls"] }
rust-embed = { version = "=8.13.0", features = ["mime-guess", "interpolate-folder-path"] }
serde = { version = "=1.0.229", features = ["derive"] }
serde_json = "=1.0.154"
tokio = { version = "=1.54.1", features = ["full"] }
