[package]
name = "cognitrade"
version = "0.1.0"
edition = "2021"
publish = false

[dependencies]
base64 = "0.22"
sha2 = "0.10"
hex = "0.4"
pdf-extract = "*"
serde = { version = "1", features = ["derive"] }
serde_json = "1"
thiserror = "*"
rusqlite = { version = "*", features = ["bundled"] }
chrono = "0.4"
reqwest = { version = "*", default-features = false, features = ["json", "stream", "rustls-tls"] }
tokio = { version = "1", features = ["rt-multi-thread", "macros", "sync", "time"] }
futures = "0.3"
tracing = "0.1"
uuid = { version = "1", features = ["v4"] }
keyring = "*"
dirs = "*"
notify = "*"
image = { version = "*", default-features = false, features = ["png", "jpeg", "webp"] }
