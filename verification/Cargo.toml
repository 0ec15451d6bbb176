[package]
name = "redjubjub"
version = "0.1.0"
edition = "2021"
publish = false

[dependencies]
ark-ec = "=0.6.0"
ark-ed-on-bls12-381 = "=0.6.0"
ark-ff = "=0.6.0"
blake2-rfc = "=0.2.18"
rand = "=0.8.8"
