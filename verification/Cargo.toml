[package]
name = "hypertron"
version = "0.1.0"
edition = "2021"
publish = false

[dependencies]
ark-bls12-381 = "=0.5.0"
ark-ec = "=0.5.0"
ark-ff = "=0.5.0"
ark-std = "=0.5.0"
ark-serialize = "=0.5.0"
ark-groth16 = "=0.5.0"
ark-relations = "=0.5.1"
ark-r1cs-std = "=0.5.0"
ark-snark = "=0.5.1"
sha2 = "=0.10.9"
x25519-dalek = { version = "=2.0.1", features = ["static_secrets"] }
chacha20poly1305 = "=0.10.1"
rand_core = { version = "=0.6.4", features = ["getrandom"] }
hex = "=0.4.3"
anyhow = "=1.0.104"
serde = { version = "=1.0.229", features = ["derive"] }
serde_json = "=1.0.154"
clap = { version = "=4.6.7", features = ["derive"] }
soroban-poseidon = "=28.0.0"
soroban-sdk = "=28.0.0"
stellar-xdr = "=28.0.0"

[dev-dependencies]
soroban-sdk = { version = "=28.0.0", features = ["testutils"] }
