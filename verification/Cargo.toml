[package]
name = "ssb_sign"
version = "0.1.0"
edition = "2021"
publish = false

[dependencies]
ssb-crypto = "=0.2.3"
ed25519-dalek = "=1.0.1"
base64 = "=0.13.1"
