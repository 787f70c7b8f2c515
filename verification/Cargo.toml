[package]
name = "a_z"
version = "0.1.0"
edition = "2021"
publish = false

[dependencies]
url = "2"
serde = { version = "1", features = ["derive"] }
serde_json = "1"
html5ever = "0.27"
markup5ever_rcdom = "0.3"
uuid = { version = "1", features = ["v4"] }
log = "0.4"
anyhow = "1"
thiserror = "1"
tokio = { version = "1", features = ["full"] }
reqwest = { version = "0.12", default-features = false, features = ["cookies", "gzip", "brotli", "deflate", "rustls-tls"] }
crossterm = { version = "0.28", features = ["event-stream"] }
ratatui = "0.29"
futures-util = "0.3"
tokio-tungstenite = "0.24"
env_logger = "0.11"
dashmap = "6"
ron = "0.8"
async-trait = "0.1"
rquickjs = "0.6"
tiny-skia = "0.11"
fontdue = "0.9"
taffy = "0.5"
