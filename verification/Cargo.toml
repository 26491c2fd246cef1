[package]
name = "seal-node"
version = "0.1.0"
edition = "2021"
publish = false

[dependencies]
serde = { version = "=1.0.229", features = ["derive"] }
serde_json = "=1.0.154"
hex = "=0.4.3"
aes-gcm = "=0.10.3"
rand = "=0.8.8"
zeroize = "=1.9.1"
sha3 = "0.10"
base64 = "0.22"
