[package]
name = "pulsebook"
version = "0.1.0"
edition = "2021"
publish = false

[dependencies]
axum = "=0.8.9"
futures-util = "=0.3.34"
parking_lot = "=0.12.5"
rand = { version = "=0.9.5", features = ["small_rng"] }
reqwest = { version = "=0.12.28", default-features = false, features = ["json", "rustls-tls"] }
serde = { version = "=1.0.229", features = ["derive"] }
serde_json = "=1.0.154"
socketioxide = "=0.18.9"
tokio = { version = "=1.54.1", features = ["macros", "rt-multi-thread", "time", "net", "sync"] }
tokio-tungstenite = { version = "=0.27.0", features = ["rustls-tls-webpki-roots"] }
tracing = "=0.1.44"
tracing-subscriber = "=0.3.23"
