[package]
name = "nyx_core"
version = "0.1.0"
edition = "2021"
publish = false

[dependencies]
aes-gcm = "=0.10.3"
base64 = "=0.22.1"
keyring = { version = "=3.6.3", default-features = false }
p256 = { version = "=0.13.2", features = ["ecdh"] }
pbkdf2 = { version = "=0.12.2", features = ["hmac"] }
sha2 = "=0.10.9"
zeroize = "=1.8.2"
