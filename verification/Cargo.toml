[package]
name = "falconeri"
version = "0.2.0"
edition = "2021"
publish = false

[dependencies]
anyhow = "1"
backoff = "0.4"
base64 = "0.22"
chrono = "0.4"
glob = "0.3"
handlebars = "5"
rand = "0.8"
serde = { version = "1", features = ["derive"] }
serde_json = "1"
uuid = { version = "1", features = ["v4"] }
