[package]
name = "ndn_security"
version = "0.1.0"
edition = "2021"
publish = false

[dependencies]
base64 = "=0.22.1"
ring = "=0.17.14"
sha2 = "=0.10.9"
x509-parser = "=0.16.0"
rustls-pemfile = "=2.2.0"
getrandom = "=0.2.17"
ed25519-dalek = { version = "=2.2.0", features = ["pkcs8"] }
serde_json = "=1.0.154"
dashmap = "=6.2.1"
rand_core = { version = "=0.6.4", features = ["getrandom"] }
pkcs8 = { version = "=0.10.2", features = ["encryption", "std"] }
pkcs5 = { version = "0.7", features = ["pbes2"] }
p256 = { version = "0.13", features = ["ecdsa", "pkcs8"] }
blake3 = { version = "1", features = ["pure"] }
