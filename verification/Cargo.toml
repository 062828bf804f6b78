[package]
name = "mydb"
version = "0.1.0"
edition = "2021"
publish = false

[dependencies]
anyhow = "1"
axum = "0.8"
bincode = "1"
chrono = "0.4"
clap = { version = "4", features = ["derive"] }
dirs = "*"
mysql = { version = "*", default-features = false, features = ["minimal-rust"] }
parking_lot = "0.12"
rust_decimal = "1"
rustls-pemfile = "2"
rustyline = "*"
serde = { version = "1", features = ["derive"] }
serde_json = "1"
serde_yaml = "0.9"
sha2 = "0.10"
tempfile = "3"
tokio = { version = "1", features = ["full"] }
tokio-rustls = { version = "0.26", default-features = false, features = ["ring", "tls12", "logging"] }
tower-http = { version = "0.6", features = ["trace"] }
tracing = "0.1"
tracing-subscriber = { version = "0.3", features = ["env-filter"] }
uuid = { version = "1", features = ["v4"] }
zstd = "0.13"
