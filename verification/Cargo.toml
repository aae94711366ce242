[package]
name = "cpandas"
version = "0.1.0"
edition = "2021"
publish = false

[dependencies]
aes-gcm = "=0.9.4"
anyhow = "=1.0.104"
copypasta = "=0.8.2"
eframe = "=0.18.0"
env_logger = "=0.9.3"
hex = "=0.4.3"
log = "=0.4.34"
once_cell = "=1.21.4"
rand = "=0.8.8"
rocksdb = "=0.18.0"
self_encryption = "=0.27.5"
serde = { version = "=1.0.229", features = ["derive"] }
serde_json = { version = "=1.0.154", features = ["preserve_order"] }
sha2 = "=0.10.9"
uuid = { version = "=1.29.0", features = ["v4"] }
