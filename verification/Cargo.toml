[package]
name = "xion_blockchain"
version = "0.1.0"
edition = "2021"
publish = false

[dependencies]
sha2 = "0.10"
hex = "0.4"
serde = { version = "1", features = ["derive"] }
schemars = "0.8"
thiserror = "1"
cosmwasm-std = "1.5"
cw-storage-plus = "1.2"
