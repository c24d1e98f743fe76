[package]
name = "agentcreds-core"
version = "0.1.0"
edition = "2021"
publish = false

[dependencies]
ark-bls12-381 = "=0.3.0"
ark-ff = "=0.3.0"
ark-serialize = "=0.3.0"
base64ct = { version = "=1.8.3", features = ["alloc"] }
bbs_plus = "<0.11"
biscuit-auth = "=6.0.0"
blake2 = "=0.9.2"
bs58 = "=0.5.1"
chrono = { version = "=0.4.45", features = ["serde"] }
ciborium = "=0.2.2"
ed25519-dalek = { version = "=2.2.0", features = ["rand_core"] }
hex = { version = "=0.4.3", features = ["serde"] }
p256 = { version = "=0.13.2", features = ["ecdsa"] }
rand = "=0.8.8"
serde = { version = "=1.0.229", features = ["derive"] }
serde_json = "=1.0.154"
sha2 = "=0.10.9"
thiserror = "=1.0.69"
toml = "=0.8.23"
zeroize = { version = "=1.9.1", features = ["derive"] }
