[package]
name = "tofn"
version = "0.1.0"
edition = "2021"
publish = false

[dependencies]
k256 = { version = "=0.10.4", features = ["ecdsa", "keccak256"] }
ecdsa = { version = "=0.13.4", features = ["hazmat"] }
sha3 = "=0.10.9"
rand = "=0.8.8"
hex = "=0.4.3"
anyhow = "=1.0.104"
clap = { version = "=3.2.25", features = ["derive"] }
tracing = "=0.1.44"
tracing-subscriber = "=0.3.23"
chrono = "=0.4.45"
