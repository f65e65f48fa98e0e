[package]
name = "face_auth"
version = "0.1.0"
edition = "2021"
publish = false

[dependencies]
anyhow = "=1.0.104"
candle-core = "=0.9.2"
candle-nn = "=0.9.2"
candle-transformers = "=0.9.2"
chrono = { version = "=0.4.45", features = ["serde"] }
hf-hub = "=0.4.3"
image = { version = "=0.25.10", default-features = false, features = ["jpeg"] }
lazy_static = "=1.5.1"
minifb = "=0.28.0"
qdrant-client = { version = "1", default-features = false }
reqwest = { version = "=0.12.28", default-features = false, features = ["blocking", "default-tls"] }
serde = { version = "=1.0.229", features = ["derive"] }
serde_json = "=1.0.154"
serde_yaml = "=0.9.34"
uuid = { version = "=1.29.0", features = ["v4"] }
