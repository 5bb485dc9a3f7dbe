[package]
name = "ibe_schemes"
version = "0.1.0"
edition = "2021"
publish = false

[dependencies]
ark-bls12-381 = "=0.5.0"
ark-ec = "=0.5.0"
ark-ff = "=0.5.0"
ark-std = "=0.5.0"
bit-vec = "=0.10.1"
blake3 = { version = "=1.5.5", features = ["traits-preview"] }
digest = "=0.10.7"
rand = "=0.8.8"
