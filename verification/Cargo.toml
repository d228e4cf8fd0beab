[package]
name = "ragit"
version = "0.1.0"
edition = "2021"
publish = false

[dependencies]
sha2 = "=0.10.9"
hmac = "=0.12.1"
hex = "=0.4.3"
base64 = "=0.22.1"
serde = { version = "=1.0.229", features = ["derive"] }
serde_json = "=1.0.154"
serde_yaml = "=0.9.34"
quick-xml = "=0.37.5"
zip = { version = "=2.6.1", default-features = false, features = ["deflate"] }
argon2 = { version = "=0.5.3", features = ["std"] }
uuid = { version = "=1.29.0", features = ["v4"] }
chrono = "=0.4.45"
dirs = "=5.0.1"
walkdir = "=2.5.0"
sysinfo = "=0.33.1"
rusqlite = { version = "=0.32.1", features = ["bundled"] }
r2d2 = "=0.8.10"
r2d2_sqlite = "=0.25.0"
reqwest = { version = "=0.12.28", default-features = false, features = ["blocking", "json", "rustls-tls"] }
axum = "=0.7.9"
tokio = { version = "=1.54.1", features = ["rt-multi-thread", "net", "sync", "macros"] }
zvec-rust = "*"
