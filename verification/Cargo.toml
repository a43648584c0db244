[package]
name = "voloph"
version = "0.1.0"
edition = "2021"
publish = false

[dependencies]
sha2 = "=0.10.9"
serde = { version = "=1.0.229", features = ["derive"] }
serde_json = "=1.0.154"
rusqlite = { version = "=0.41.1", features = ["bundled"] }
walkdir = "=2.5.0"
log = "=0.4.35"
ort = { version = "=2.0.0-rc.10", default-features = false, features = ["std", "load-dynamic"] }
