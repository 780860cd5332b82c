[package]
name = "link_of_trust"
version = "0.1.0"
edition = "2021"
publish = false

[dependencies]
near-sdk = { version = "*", features = ["unit-testing"] }
serde = "*"
schemars = "*"
