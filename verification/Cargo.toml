[package]
name = "utxo_codec"
version = "0.1.0"
edition = "2021"
publish = false

[dependencies]
digest = "0.10"

[dev-dependencies]
sha2 = "0.10"
