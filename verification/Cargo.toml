[package]
name = "shielded_ledger"
version = "0.1.0"
edition = "2021"
publish = false

[dependencies]
ark-bn254 = "0.4"
ark-ff = "0.4"
ark-std = "0.4"
ark-crypto-primitives = { version = "0.4", features = ["crh", "sponge", "r1cs"] }
ark-r1cs-std = "0.4"
ark-relations = "0.4"
rs_merkle = "1"
