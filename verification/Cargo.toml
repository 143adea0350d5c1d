[package]
name = "wallet_keystore"
version = "0.1.0"
edition = "2021"
publish = false

[dependencies]
libsecp256k1 = "=0.7.2"
bls-signatures = "=0.15.0"
blake2b_simd = "=1.0.5"
rand = "=0.8.8"
aes-gcm = "=0.11.1"
pbkdf2 = "=0.13.0"
sha2 = "=0.11.0"
base64 = "=0.22.1"
anyhow = "*"
clap = { version = "*", features = ["derive"] }
tokio = { version = "*", features = ["rt-multi-thread", "sync", "macros"] }
