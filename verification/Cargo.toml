[package]
name = "cbr"
version = "0.1.0"
edition = "2021"
publish = false

[dependencies]
curve25519-dalek = { version = "4", features = ["digest"] }
sha2 = "0.10"
hmac = "0.12"
subtle = "2"
rand = "0.8"
base64 = "0.22"
