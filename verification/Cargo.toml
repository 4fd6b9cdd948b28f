[package]
name = "aps_engine"
version = "0.1.0"
edition = "2021"
publish = false

[dependencies]
chrono = "=0.4.45"
serde = { version = "=1.0.229", features = ["derive"] }
serde_json = "=1.0.151"
uuid = { version = "=1.27.0", features = ["v4"] }

[dev-dependencies]
rand = "0.8"
