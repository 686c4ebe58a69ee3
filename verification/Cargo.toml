[package]
name = "vless_harvester"
version = "0.1.0"
edition = "2021"
publish = false

[dependencies]
base64 = "0.22"
chrono = "0.4"
dashmap = "6"
futures-util = "0.3"
maxminddb = "0.24"
mimalloc = { version = "*", default-features = false }
reqwest = { version = "0.12", default-features = false, features = ["rustls-tls", "stream", "socks"] }
serde_json = "1"
tokio = { version = "1", features = ["full"] }
tokio-util = "0.7"
url = "2"
urlencoding = "2"
