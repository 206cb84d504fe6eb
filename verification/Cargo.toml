[package]
name = "cw404_core"
version = "0.1.0"
edition = "2021"
publish = false

[dependencies]
sha3 = "=0.12.0"
cosmwasm-std = { version = "=2.3.5", features = ["cosmwasm_1_1"] }
cosmwasm-schema = "=2.3.5"
cw-storage-plus = "=2.0.0"
cw-utils = "=2.0.0"
cw2 = "=2.0.0"
cw721 = "=0.22.0"
osmosis-std = "=0.27.0"
thiserror = "*"
