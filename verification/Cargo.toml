[package]
name = "auction"
version = "0.1.0"
edition = "2021"
publish = false

[dependencies]
cosmwasm-schema = "1.1"
cosmwasm-std = "1.1"
cw-storage-plus = "0.16"
cw721 = "0.16"
schemars = "0.8"
serde = { version = "1.0", default-features = false, features = ["derive"] }
thiserror = "1.0"
