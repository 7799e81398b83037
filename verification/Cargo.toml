[package]
name = "private_accumulator_proof_delegation"
version = "0.1.0"
edition = "2021"
publish = false

[dependencies]
num-bigint = { version = "0.4", features = ["rand", "serde"] }
num-integer = "0.1"
num-traits = "0.2"
rand = "0.8"
sha2 = "0.10"
glass_pumpkin = "1"
zeroize = "1"
serde = { version = "1", features = ["derive"] }
ark-bls12-381 = "0.4"
ark-ec = "0.4"
ark-ff = "0.4"
ark-poly = "0.4"
ark-poly-commit = "0.4"
ark-serialize = "0.4"
ark-std = "0.4"

[dev-dependencies]
serde_json = "1"
