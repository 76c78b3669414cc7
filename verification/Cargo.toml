[package]
name = "noide"
version = "0.3.8"
edition = "2021"
publish = false

[dependencies]
axum = { version = "0.7", features = ["multipart"] }
base64 = "0.22"
chrono = "0.4"
clap = { version = "4", features = ["derive"] }
ctrlc = "3"
dirs-next = "2"
flate2 = "1"
futures-util = "0.3"
libc = "0.2"
mime_guess = "2"
portable-pty = "0.8"
qrcode = { version = "0.14", default-features = false }
rand = "0.8"
regex = "1"
reqwest = { version = "0.12", default-features = false, features = ["blocking", "json", "rustls-tls"] }
rusqlite = { version = "0.31", features = ["bundled"] }
serde = { version = "1", features = ["derive"] }
serde_json = "1"
tokio = { version = "1", features = ["full"] }
tokio-stream = "0.1"
tokio-tungstenite = "0.24"
tower = "0.5"
tower-http = { version = "0.6", features = ["cors", "trace"] }
tracing = "0.1"
tracing-subscriber = { version = "0.3", features = ["env-filter"] }
walkdir = "2"
which = "6"
zip = { version = "2", default-features = false, features = ["deflate"] }
