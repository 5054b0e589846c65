[package]
name = "mosaic_contracts"
version = "0.1.0"
edition = "2021"
publish = false

[dependencies]
cosmwasm-std = "1.5"
cosmwasm-schema = "1.5"
cw-utils = "1.0"
cw-storage-plus = "1.2"
cw2 = "1.1"
cw721 = "0.18"
cw721-base = { version = "0.18", features = ["library"] }
sg721 = "*"
sg721-base = { version = "*", features = ["library"] }
sg-metadata = "*"
rand = "0.8"
serde = { version = "1.0", features = ["derive"] }
serde_json = "1.0"
schemars = "0.8"
thiserror = "1.0"
async-trait = "0.1"
