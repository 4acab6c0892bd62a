[package]
name = "indexone"
version = "0.1.0"
edition = "2021"
publish = false

[dependencies]
blake3 = { version = "=1.8.7", features = ["pure"] }
ed25519-dalek = "=2.2.0"
fips204 = "=0.4.6"
getrandom = "=0.2.17"
sha2 = "=0.10.9"
base64 = "=0.22.1"
hex = "=0.4.3"
serde = { version = "=1.0.229", features = ["derive"] }
serde_json = "=1.0.154"

[dev-dependencies]
serde_jcs = "0.1"
