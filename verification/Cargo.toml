[package]
name = "merkle_tree"
version = "0.1.0"
edition = "2021"
publish = false

[dependencies]
hex = "0.4"
tiny-keccak = { version = "2.0", features = ["keccak"] }
