[package]
name = "blue_rdma"
version = "0.1.0"
edition = "2021"
publish = false

[dependencies]
serde = { version = "=1.0.229", features = ["derive"] }
serde_json = "=1.0.154"
parking_lot = "=0.12.5"
libc = "=0.2.191"
log = "=0.4.35"
env_logger = "=0.11.11"
bincode = "=2.0.1"
