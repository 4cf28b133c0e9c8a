[package]
name = "google_ai"
version = "0.1.0"
edition = "2021"
publish = false

[dependencies]
async-stream = "0.3"
futures = "0.3"
futures-util = "0.3"
reqwest = { version = "0.12", default-features = false, features = ["json", "rustls-tls"] }
serde = { version = "1", features = ["derive"] }
serde_json = "1"
tokio = { version = "1", features = ["io-util", "macros", "net", "rt-multi-thread", "time", "sync"] }
uuid = { version = "1", features = ["v4"] }
