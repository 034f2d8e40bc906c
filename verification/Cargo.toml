[package]
name = "motauron"
version = "0.1.0"
edition = "2021"
publish = false

[dependencies]
serde = { version = "1", features = ["derive"] }
serde_json = "1"
toml = "0.8"
chrono = { version = "0.4", features = ["serde"] }
csv = "1"
async-trait = "0.1"
tokio = { version = "1", features = ["full"] }
reqwest = { version = "0.12", default-features = false, features = ["rustls-tls"] }
rustls = "0.23"
axum = "0.7"
tower-http = { version = "0.6", features = ["cors"] }
firestore = "*"
headless_chrome = "*"
scraper = "*"
