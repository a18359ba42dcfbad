[package]
name = "yolo_detect"
version = "0.1.0"
edition = "2021"
publish = false

[dependencies]
axum = "0.7.9"
ndarray = "*"
opencv = "0.92.3"
ort = "=2.0.0-rc.15"
serde_json = "1.0.154"
tokio = { version = "1.54.1", features = ["full"] }
