[package]
name = "ms_core"
version = "0.1.0"
edition = "2021"
publish = false

[dependencies]
chrono = { version = "=0.4.45", features = ["serde"] }
chrono-tz = "=0.10.4"
rusqlite = { version = "=0.32.1", features = ["bundled"] }
uuid = { version = "=1.29.0", features = ["v4"] }
serde = { version = "=1.0.229", features = ["derive"] }
serde_json = "=1.0.154"
clap = { version = "=4.6.7", features = ["derive"] }
iana-time-zone = "=0.1.65"
ureq = { version = "=2.12.1", features = ["json"] }
