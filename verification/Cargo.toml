[package]
name = "index_scheduler"
version = "0.1.0"
edition = "2021"
publish = false

[dependencies]
roaring = "=0.11.5"
time = "=0.3.55"
uuid = "=1.27.0"
serde = { version = "=1.0.229", features = ["derive"] }
serde_json = "=1.0.151"
toml = "=1.1.7"
bincode = "=1.3.3"
