[package]
name = "electrs"
version = "0.1.0"
edition = "2021"
publish = false

[dependencies]
bitcoin = "*"
bitcoin_hashes = "*"
hex = "*"
serde = { version = "*", features = ["derive"] }
serde_json = "*"
