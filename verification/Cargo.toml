[package]
name = "zkcash"
version = "0.1.0"
edition = "2021"
publish = false

[dependencies]
ark-bn254 = "=0.6.0"
ark-ff = "=0.6.0"
ark-serialize = "=0.6.0"
light-hasher = { version = "=7.0.0", features = ["poseidon"] }
solana-bn254 = "=3.2.1"
solana-sha256-hasher = "=3.1.0"
solana-program = "=5.1.0"
borsh = "=1.8.1"

[dev-dependencies]
num-bigint = "=0.4.8"
