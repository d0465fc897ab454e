[package]
name = "atlas_ground"
version = "0.1.0"
edition = "2021"
publish = false

[dependencies]
crc16 = "0.4"
rand = "*"
serde = { version = "1", features = ["derive"] }
serde_json = "1"
axum = { version = "0.8", features = ["ws"] }
tokio = { version = "1", features = ["rt-multi-thread", "macros", "sync", "net"] }
tower-http = { version = "0.6", features = ["cors"] }
serialport = { version = "4", default-features = false }
