[package]
name = "araponto"
version = "0.1.0"
edition = "2021"
publish = false

[dependencies]
axum = "0.5"
bytes = "1"
log = "0.4"
once_cell = "1"
serde_json = "1"
tokio = { version = "1", features = ["rt", "sync", "time", "net"] }
