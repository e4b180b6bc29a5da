[package]
name = "zswap"
version = "0.1.0"
edition = "2021"
publish = false

[dependencies]
ethnum = "1"
near-sdk = { version = "4.1.1", default-features = false }
near-contract-standards = "4.1.1"
hex = "0.4"
base64 = "0.21"
