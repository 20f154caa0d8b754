[package]
name = "atm0s_sdn_network"
version = "0.1.0"
edition = "2021"
publish = false

[dependencies]
sha1 = "=0.10.7"
sha2 = "=0.10.9"
serde = { version = "=1.0.229", features = ["derive"] }
bincode = "=1.3.3"
aes-gcm = "0.10"
x25519-dalek = { version = "2", features = ["getrandom"] }
rand = "0.8"
