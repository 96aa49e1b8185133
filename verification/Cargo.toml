[package]
name = "device_control"
version = "0.1.0"
edition = "2021"
publish = false

[dependencies]
anyhow = "=1.0.104"
base64 = "=0.13.1"
chrono = { version = "=0.4.45", default-features = false, features = ["clock"] }
futures = "=0.3.34"
futures-util = "=0.3.34"
image = "0.24"
imageproc = "0.23"
ndarray = "0.15"
once_cell = "1"
onnxruntime = "0.0.14"
opencv = "*"
serde = { version = "=1.0.229", features = ["derive"] }
serde_json = "=1.0.154"
thiserror = "1"
tokio = { version = "=1.54.1", features = ["full"] }
tokio-rustls = "=0.23.4"
tokio-serial = "=5.5.0"
tokio-tungstenite = "=0.20.1"
tokio-util = "=0.7.20"
url = "=2.5.8"
uuid = { version = "=1.29.0", features = ["serde"] }
webpki-roots = "=0.22.6"
