[package]
name = "rujira_vault"
version = "0.1.0"
edition = "2021"
publish = false

[dependencies]
cosmwasm-std = "2"
cw2 = "2"
cw-utils = "2"
cw-storage-plus = "2"
rujira-rs = "*"
serde = { version = "1", features = ["derive"] }
thiserror = "1"
