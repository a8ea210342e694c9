[package]
name = "onyx"
version = "0.1.0"
edition = "2021"
publish = false

[dependencies]
ndarray = { version = "0.16", features = ["serde"] }
sha2 = "0.10"
base64ct = { version = "1", features = ["alloc"] }
serde = { version = "1", features = ["derive"] }
rmp-serde = "1"
toml = "0.8"
message-io = { version = "*", default-features = false, features = ["tcp"] }
euclid = { version = "0.22", features = ["serde", "mint"] }
mint = { version = "0.5", features = ["serde"] }
anyhow = "1"
chrono = "0.4"
log = "0.4"
env_logger = "0.11"
