[package]
name = "eth_codec"
version = "0.1.0"
edition = "2021"
publish = false

[dependencies]
tiny-keccak = { version = "2.0", features = ["keccak"] }
sp-crypto-hashing = "*"
rlp = "*"
ethereum-types = { version = "*", default-features = false, features = ["std", "rlp"] }
