[package]
name = "godwoken"
version = "0.1.0"
edition = "2021"
publish = false

[dependencies]
blake2b-ref = "=0.3.1"
sparse-merkle-tree = "=0.6.1"
libsecp256k1 = "=0.7.2"

[dev-dependencies]
ckb-merkle-mountain-range = "=0.6.1"
