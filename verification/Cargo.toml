[package]
name = "aster_db"
version = "0.1.0"
edition = "2021"
publish = false

[dependencies]
crc32fast = "1"
bincode = "1.3"
serde = { version = "1", features = ["derive"] }
serde_json = "1"
chrono = "0.4"
thiserror = "1"
parking_lot = "0.12"
tokio = { version = "1", features = ["full"] }
axum = "0.7"
tower = "0.4"
tower-http = { version = "0.5", features = ["cors", "trace"] }
tracing = "0.1"
tracing-subscriber = "0.3"
clap = "4"
