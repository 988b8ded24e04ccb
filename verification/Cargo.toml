[package]
name = "zync"
version = "0.4.0"
edition = "2021"
publish = false

[dependencies]
aes-gcm = "=0.10.3"
generic-array = "=0.14.7"
pbkdf2 = "=0.12.2"
sha2 = "=0.10.9"
rand = "=0.8.8"
base64 = "=0.22.1"
hostname = "=0.4.2"
keyring = { version = "=3.6.3", features = ["sync-secret-service", "vendored"] }
sysinfo = "=0.30.13"
dirs = "=5.0.1"
serde = { version = "=1.0.229", features = ["derive"] }
serde_json = "=1.0.154"
rusqlite = { version = "=0.31.0", features = ["bundled"] }
reqwest = { version = "=0.12.28", default-features = false, features = ["json", "rustls-tls"] }
tokio = { version = "=1.54.1", features = ["rt-multi-thread", "time", "sync"] }
