[package]
name = "dum_cipher"
version = "0.1.0"
edition = "2021"
publish = false

[dependencies]
hmac = "0.12"
pbkdf2 = "0.12"
rand = "0.8"
sha2 = "0.10"
