[package]
name = "miasma_core"
version = "0.1.0"
edition = "2021"
publish = false

[dependencies]
blake3 = "=1.8.7"
chacha20poly1305 = "=0.10.1"
rand = "=0.8.8"
ed25519-dalek = { version = "=2.2.0", features = ["rand_core"] }
x25519-dalek = { version = "=2.0.1", features = ["static_secrets"] }
hkdf = "=0.12.4"
sha2 = "=0.10.9"
bls12_381 = "=0.8.0"
ff = "=0.13.1"
bincode = "=1.3.3"
serde = { version = "=1.0.229", features = ["derive"] }
hex = "=0.4.3"
multiaddr = "0.18"

[dev-dependencies]
serde_json = "=1.0.154"
