[package]
name = "zwaves_primitives"
version = "0.1.0"
edition = "2021"

[dependencies]
sapling-crypto = "*"
jubjub = "*"
bls12_381 = "*"
group = "*"
ff = "*"
