[package]
name = "revocable_anchors"
version = "0.1.0"
edition = "2021"
publish = false

[dependencies]
blake2 = "0.8"
derivative = "2"
parity-scale-codec = { version = "*", features = ["derive"] }
