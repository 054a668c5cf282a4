[package]
name = "kaku"
version = "0.1.0"
edition = "2021"
publish = false

[dependencies]
encoding_rs = "=0.8.44"
unicode-segmentation = "=1.13.3"
termwiz = { version = "=0.22.0", default-features = false }
syntect = { version = "=5.3.0", default-features = false, features = ["default-fancy"] }
serde = { version = "=1.0.229", features = ["derive"] }
serde_json = "=1.0.154"
chrono = "=0.4.45"
reqwest = { version = "0.12", features = ["blocking", "json"] }
anyhow = "=1.0.104"
log = "=0.4.35"
libc = "=0.2.191"
parking_lot = "0.12"
