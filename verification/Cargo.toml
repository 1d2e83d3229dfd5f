[package]
name = "qqflow-server"
version = "0.3.0"
edition = "2021"
publish = false

[dependencies]
anyhow = "1"
async-stream = "0.3"
axum = "0.8"
chrono = "0.4"
dirs = "6"
futures-util = "0.3"
keyring = "3"
libsqlite3-sys = "0.30"
notify = "8"
notify-debouncer-mini = "0.6"
parking_lot = "0.12"
rand = "0.8"
rusqlite = { version = "0.32", features = ["bundled-sqlcipher-vendored-openssl"] }
serde = { version = "1", features = ["derive"] }
serde_json = "1"
tokio = { version = "1", features = ["full"] }
tokio-stream = { version = "0.1", features = ["sync"] }
tokio-util = { version = "0.7", features = ["io"] }
tracing = "0.1"
