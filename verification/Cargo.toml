[package]
name = "aggregator"
version = "0.1.0"
edition = "2021"
publish = false

[dependencies]
ethers-core = "=2.0.14"
snark-verifier = { version = "=0.2.3", default-features = false, features = ["loader_halo2", "halo2-axiom"] }
snark-verifier-sdk = { version = "=0.2.3", default-features = false, features = ["loader_halo2", "halo2-axiom"] }
rand = "=0.8.8"
itertools = "=0.15.0"
log = "=0.4.34"

[dev-dependencies]
sha3 = "=0.12.0"
ark-std = "=0.6.0"
