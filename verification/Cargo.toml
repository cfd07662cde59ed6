[package]
name = "libremeet"
version = "0.1.0"
edition = "2021"
publish = false

[dependencies]
anyhow = "1"
chrono = "0.4"
log = "0.4"
serde = { version = "1", features = ["derive"] }
serde_json = "1"
sqlx = { version = "0.8", default-features = false, features = ["runtime-tokio", "sqlite", "chrono", "macros"] }
tempfile = "3"
tokio = { version = "1", features = ["process", "io-util", "fs", "rt"] }
tracing = "0.1"
