[package]
name = "awake_core"
version = "0.1.0"
edition = "2021"
publish = false

[dependencies]
p256 = { version = "=0.13.2", features = ["ecdh"] }
hkdf = "=0.12.4"
sha2 = "=0.10.9"
aes-gcm = "=0.10.3"
bs58 = "=0.5.1"
base64 = "=0.13.1"
serde_json = "=1.0.151"
serde = { version = "=1.0.229", features = ["derive"] }
rand_core = { version = "=0.6.4", features = ["getrandom"] }
