[package]
name = "yomo"
version = "0.1.0"
edition = "2021"
publish = false

[dependencies]
anyhow = "*"
axum = "*"
clap = { version = "*", features = ["derive"] }
env_logger = "*"
futures-util = "*"
log = "*"
nanoid = "*"
rustls-native-certs = "*"
rustls-pki-types = "*"
s2n-quic = { version = "*", default-features = false, features = ["provider-tls-rustls", "provider-address-token-default"] }
serde = { version = "*", features = ["derive"] }
serde_json = "*"
tempfile = "*"
tokio = { version = "*", features = ["full"] }
