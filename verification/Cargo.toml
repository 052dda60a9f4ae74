[package]
name = "klipper_bridge"
version = "0.1.0"
edition = "2021"
publish = false

[dependencies]
rand = "0.9"
regex = "1"
tokio = { version = "1", features = ["rt-multi-thread"] }
reqwest = { version = "0.12", default-features = false }
warp = { version = "0.3", default-features = false }
serde = { version = "1", features = ["derive"] }
toml = "0.8"
chrono = "0.4"
colored = "2"
crossterm = "0.27"
log = "0.4"
log4rs = "1"
