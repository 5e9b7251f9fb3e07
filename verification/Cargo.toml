[package]
name = "lookout"
version = "0.1.0"
edition = "2021"
publish = false

[dependencies]
chrono = "=0.4.45"
base64 = "=0.22.1"
uuid = { version = "=1.29.0", features = ["v4"] }
serde = { version = "1", features = ["derive"] }
serde_json = "=1.0.154"
async-channel = "=2.5.0"
async-trait = "0.1"
futures-util = "0.3"
tracing = "0.1"
tokio = { version = "1", features = ["rt", "macros", "time", "sync"] }
reqwest = { version = "=0.12.28", default-features = false, features = ["json"] }
secret-service = { version = "=5.2.0", features = ["rt-tokio-crypto-rust"] }
zbus = { version = "=5.19.0", default-features = false, features = ["tokio"] }
