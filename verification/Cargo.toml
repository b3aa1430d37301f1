[package]
name = "simple"
version = "0.1.0"
edition = "2021"
publish = false

[dependencies]
sha2 = "0.10"
hex = "0.4"
rand = "*"
serde = { version = "1", features = ["derive"] }
serde_json = "1"
anyhow = "1"
axum = "0.8"
axum-server = { version = "0.7", features = ["tls-rustls"] }
tokio = { version = "1", features = ["rt-multi-thread", "macros"] }
ureq = { version = "2", features = ["json"] }
rustls = "0.23"
rustls-native-certs = "0.8"
rustls-pemfile = "2"
