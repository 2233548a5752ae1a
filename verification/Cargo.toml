[package]
name = "minichain"
version = "0.1.0"
edition = "2021"
publish = false

[dependencies]
sha2 = "=0.11.0"
secp256k1 = { version = "=0.33.1", features = ["rand"] }
rand = "=0.9.5"
chrono = "=0.4.45"
serde = { version = "=1.0.229", features = ["derive"] }
serde_json = "=1.0.151"
bincode = "=1.3.3"
tokio = { version = "=1.53.2", features = ["full"] }
rocksdb = "=0.25.0"
