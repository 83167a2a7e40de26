[package]
name = "house_staking"
version = "0.1.0"
edition = "2021"
publish = false

[dependencies]
cosmwasm-std = "=1.5.11"
cosmwasm-schema = "=1.5.11"
cw-storage-plus = "=1.2.0"
cw2 = "=1.1.2"
serde = "=1.0.229"
thiserror = "=1.0.69"
