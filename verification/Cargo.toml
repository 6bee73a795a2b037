[package]
name = "ser_sled"
version = "0.1.0"
edition = "2021"
publish = false

[dependencies]
sled = "0.34"
bincode = { version = "2", features = ["serde"] }
serde = "1"
