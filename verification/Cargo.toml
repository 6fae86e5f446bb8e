[package]
name = "openzax"
version = "0.1.0"
edition = "2021"
publish = false

[dependencies]
uuid = { version = "=1.29.0", features = ["v4"] }
chrono = "=0.4.45"
sha2 = "=0.10.9"
ed25519-dalek = { version = "=2.2.0", features = ["rand_core"] }
base64 = "=0.22.1"
serde = { version = "=1.0.229", features = ["derive"] }
serde_json = "=1.0.154"
hmac = "=0.12.1"
rusqlite = "=0.31.0"
thiserror = "=1.0.69"
anyhow = "=1.0.104"
tokio = { version = "=1.54.1", features = ["rt", "macros", "time", "sync", "io-util"] }
reqwest = { version = "=0.12.28", default-features = false, features = ["json", "stream"] }
futures-util = "=0.3.34"
tokio-util = { version = "=0.7.20", features = ["io"] }
bytes = "=1.12.1"
dirs = "=5.0.1"
crossterm = "0.28"
zip = { version = "2", default-features = false, features = ["deflate"] }
flate2 = "1"
tar = "0.4"
rand_core = { version = "0.6", features = ["getrandom"] }
