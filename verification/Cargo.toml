[package]
name = "eth-block"
version = "0.1.0"
edition = "2021"
publish = false

[dependencies]
alloy-rlp = "=0.3.17"
alloy-primitives = { version = "=1.7.3", features = ["rlp", "serde", "borsh"] }
alloy-trie = "=0.9.9"
arbitrary = "=1.5.0"
serde = { version = "=1.0.229", features = ["derive"] }
borsh = { version = "=1.8.1", features = ["derive"] }
