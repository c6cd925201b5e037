[package]
name = "sendfile"
version = "0.1.0"
edition = "2021"
publish = false

[dependencies]
blake3 = { version = "1", features = ["pure"] }
clap = { version = "4", features = ["derive"] }
crc-fast = "1"
env_logger = "0.11"
flate2 = "1"
log = "0.4"
sha2 = "0.10"
thiserror = "2"

[dev-dependencies]
postcard = { version = "1", features = ["alloc"] }
serde = "1"
