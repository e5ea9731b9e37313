[package]
name = "rustorderbook"
version = "0.1.0"
edition = "2021"
publish = false

[dependencies]
rust_decimal = "1"
url = "2"
serde = { version = "1", features = ["derive"] }
serde_json = "1"
toml = "0.8"
tokio = { version = "1", features = ["full"] }
tokio-tungstenite = { version = "0.21", features = ["rustls-tls-webpki-roots"] }
futures = "0.3"
reqwest = { version = "0.12", default-features = false, features = ["rustls-tls"] }
rand = "0.8"
async-trait = "0.1"
