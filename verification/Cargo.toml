[package]
name = "backup_sync"
version = "0.1.0"
edition = "2021"
publish = false

[dependencies]
anyhow = "*"
argon2 = "*"
axum = "*"
blake3 = { version = "*", features = ["serde"] }
clap = { version = "*", features = ["derive"] }
filetime = "*"
fs2 = "*"
futures-util = "*"
jsonwebtoken = "9"
librsync = "*"
notify = "*"
notify-debouncer-full = "*"
rayon = "*"
serde = { version = "*", features = ["derive"] }
serde_json = "*"
sqlx = { version = "*", default-features = false, features = ["sqlite", "runtime-tokio"] }
tempfile = "*"
thiserror = "*"
time = { version = "*", features = ["serde", "formatting", "parsing"] }
tokio = { version = "*", features = ["full"] }
tokio-tungstenite = "*"
tower = "*"
tower-http = { version = "*", features = ["request-id", "trace", "compression-gzip", "cors"] }
tracing = "*"
tracing-subscriber = "*"
unicode-normalization = "*"
uuid = { version = "*", features = ["v4", "serde"] }
walkdir = "*"
