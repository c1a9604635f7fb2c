[package]
name = "jito_relayer"
version = "0.1.0"
edition = "2021"
publish = false

[dependencies]
bs58 = "=0.4.0"
ed25519-dalek = "=1.0.1"
jwt = { version = "=0.16.0", features = ["openssl"] }
keyed_priority_queue = "=0.4.2"
openssl = "=0.10.81"
rand = "=0.8.8"
