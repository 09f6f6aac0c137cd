[package]
name = "sms_engine"
version = "0.1.0"
edition = "2021"
publish = false

[dependencies]
hex = "*"
serde = { version = "*", features = ["derive"] }
log = "*"
env_logger = "*"
config = "*"
prometheus = "*"
redis = { version = "*", features = ["tokio-comp"] }
serialport = { version = "*", default-features = false }
actix-web = "*"
tokio = { version = "*", features = ["rt-multi-thread", "macros", "time", "sync"] }
