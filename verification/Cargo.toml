[package]
name = "c6ol_core"
version = "0.1.0"
edition = "2021"
publish = false

[dependencies]
bytes = "=1.12.1"
bytes-varint = "=1.1.0"
rand = "=0.9.5"
tokio = { version = "=1.54.1", features = ["full"] }
axum = { version = "=0.8.9", features = ["ws"] }
tower-http = { version = "=0.6.11", features = ["fs"] }
futures-util = { version = "=0.3.34", features = ["sink"] }
rusqlite = { version = "=0.41.1", features = ["bundled"] }
chrono = "=0.4.45"
argon2 = "=0.5.3"
anyhow = "=1.0.104"
clap = { version = "=4.6.7", features = ["derive"] }
thiserror = "=2.0.21"
tracing = "=0.1.44"
tracing-subscriber = { version = "=0.3.23", features = ["env-filter"] }
socket2 = "=0.5.10"
base64 = "=0.22.1"
