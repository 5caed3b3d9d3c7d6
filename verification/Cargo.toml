[package]
name = "bonsai_garden"
version = "0.1.0"
edition = "2021"
publish = false

[dependencies]
cosmwasm-std = { version = "=0.13.2", features = ["iterator", "staking"] }
cosmwasm-storage = { version = "=0.13.2", features = ["iterator"] }
schemars = "0.7"
serde = { version = "1.0", features = ["derive"] }
thiserror = "1.0"
