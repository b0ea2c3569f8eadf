[package]
name = "arnelify_server"
version = "0.9.3"
edition = "2021"
publish = false

[dependencies]
anyhow = "1"
bytes = "1"
futures-util = "0.3"
h2 = "0.4"
http = "1"
pyo3 = "*"
rustls-pemfile = "1"
serde_json = "1"
tokio = { version = "1", features = ["full"] }
tokio-rustls = "0.24"
tokio-tungstenite = "0.26"
wtransport = "*"
