[package]
name = "zad_al_muslim"
version = "1.1.0"
edition = "2021"
publish = false

[dependencies]
chrono = "0.4.45"
serde = { version = "1", features = ["derive"] }
serde_json = "1"
parking_lot = "0.12"
log = "0.4"
env_logger = "0.11"
anyhow = "1"
tokio = { version = "1", features = ["rt", "time", "sync", "macros"] }
