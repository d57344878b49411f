[package]
name = "netlabs"
version = "0.1.0"
edition = "2021"
publish = false

[dependencies]
base64 = "=0.22.1"
sha2 = "=0.10.9"
hex = "*"
infer = "*"
httparse = "*"
anyhow = "*"
axum = { version = "=0.8.9", features = ["multipart"] }
bytes = "*"
chrono = "*"
clap = { version = "*", features = ["derive"] }
dialoguer = "*"
dns-lookup = "*"
env_logger = "*"
headers = "*"
http = "*"
http-body-util = "*"
hyper = { version = "*", features = ["full"] }
hyper-util = { version = "*", features = ["tokio"] }
lettre = { version = "*", default-features = false, features = ["builder", "smtp-transport", "hostname"] }
log = "*"
pnet = "*"
rand = "=0.10.3"
reqwest = { version = "=0.12.28", default-features = false, features = ["rustls-tls"] }
serde = { version = "*", features = ["derive"] }
serde_json = "*"
socket2 = { version = "*", features = ["all"] }
sqlx = { version = "=0.8.6", features = ["runtime-tokio", "sqlite"] }
tokio = { version = "*", features = ["full"] }
tower-http = { version = "=0.6.11", features = ["trace"] }
uuid = { version = "*", features = ["v4", "serde"] }
