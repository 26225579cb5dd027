[package]
name = "terraswap_factory"
version = "0.1.0"
edition = "2021"
publish = false

[dependencies]
cosmwasm-std = "1.5"
terraswap = "=2.9.0"
serde = { version = "1", features = ["derive"] }
