[package]
name = "defradb_core"
version = "0.1.0"
edition = "2021"
publish = false

[dependencies]
base64 = "=0.22.1"
chrono = "=0.4.45"
cid = "=0.11.3"
serde_json = "1"
tokio = { version = "=1.54.1", features = ["time"] }
