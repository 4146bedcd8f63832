[package]
name = "dkgkit"
version = "0.1.0"
edition = "2021"
publish = false

[dependencies]
serde = { version = "1", features = ["derive"] }
serde_json = "1"
sha2 = "0.10"
hex = "0.4"
bitcoin = "0.32"
secp256kfun = { version = "0.11", features = ["serde"] }
schnorr_fun = { version = "0.11", features = ["serde"] }
rand = "0.8"
rand_chacha = "0.3"
bincode = "1"
thiserror = "1"
anyhow = "1"
