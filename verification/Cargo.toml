[package]
name = "amadeus_wallet"
version = "0.1.0"
edition = "2021"
publish = false

[dependencies]
aes-gcm = "0.10"
argon2 = "0.5"
base64 = "0.22"
bls12_381 = "0.8"
blst = "0.3"
bs58 = "0.5"
group = "0.13"
rand = "0.9"
reqwest = { version = "0.12", default-features = false, features = ["blocking"] }
serde = { version = "1", features = ["derive"] }
serde_json = "1"
sha2 = "0.10"
