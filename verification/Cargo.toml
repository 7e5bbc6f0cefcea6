[package]
name = "starknet_api"
version = "0.1.0"
edition = "2021"
publish = false

[dependencies]
cairo-lang-starknet-classes = "2"
derive_more = "0.99"
indexmap = { version = "2", features = ["serde"] }
parity-scale-codec = { version = "3", features = ["derive"] }
scale-info = { version = "2", features = ["derive"] }
serde = { version = "1", features = ["derive"] }
serde_json = "1"
starknet-crypto = "0.6"
thiserror = "1"
