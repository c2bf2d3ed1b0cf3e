[package]
name = "env_secrets"
version = "0.1.0"
edition = "2021"
publish = false

[dependencies]
anyhow = "1"
parking_lot = "0.12"
schemars = "*"
serde = { version = "1", features = ["derive"] }
smol = "2"
unicode-width = "0.2"
