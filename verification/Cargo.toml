[package]
name = "nft-airdrop"
version = "0.1.0"
edition = "2021"
publish = false

[dependencies]
ed25519-dalek = "=1.0.1"
elrond-wasm = "=0.30.0"

[dev-dependencies]
num-bigint = "=0.4.8"
