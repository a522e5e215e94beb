[package]
name = "sled_extensions"
version = "0.2.0"
edition = "2021"
publish = false

[dependencies]
bincode = "1"
chrono = { version = "0.4", default-features = false, features = ["clock", "std", "serde"] }
serde = "1"
serde_cbor = "0.11"
serde_json = "1"
sled = "0.34"
