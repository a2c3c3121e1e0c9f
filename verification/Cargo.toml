[package]
name = "guild_network"
version = "0.1.0"
edition = "2021"
publish = false

[dependencies]
sha3 = "0.10"
blake2 = "0.10"
secp256k1 = { version = "0.27", features = ["recovery"] }
ed25519-zebra = "3"
schnorrkel = "0.11"
hex = "0.4"
binary-merkle-tree = "*"
hash-db = "0.16"
parity-scale-codec = "3"
serde = { version = "1", features = ["derive"] }
serde_bytes = "0.11"
ethers-core = "2"
ethereum-types = "0.14"
anyhow = "1"

[dev-dependencies]
serde_json = "1"
serde_test = "1"
