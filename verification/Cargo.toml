[package]
name = "keri"
version = "0.1.0"
edition = "2021"
publish = false

[dependencies]
sled = "0.34"
serde_cbor = "0.11"
serde = { version = "1", features = ["derive"] }
chrono = { version = "0.4", default-features = false, features = ["clock", "std"] }
