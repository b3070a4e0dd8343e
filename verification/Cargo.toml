[package]
name = "nature_common"
version = "0.1.0"
edition = "2021"
publish = false

[dependencies]
actix = { version = "*", default-features = false }
chrono = "0.4"
lazy_static = "1"
log = "0.4"
r2d2 = "0.8"
reqwest = { version = "*", default-features = false }
serde = { version = "1", features = ["derive"] }
serde_json = "1"
uuid = { version = "*", features = ["v3"] }
