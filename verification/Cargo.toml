[package]
name = "cosmwasm_simulate"
version = "0.1.0"
edition = "2021"
publish = false

[dependencies]
clap = "=2.34.0"
cosmwasm-std = { version = "0.10", features = ["iterator"] }
cosmwasm-vm = { version = "0.10", features = ["iterator"] }
serde = "=1.0.229"
serde_json = "=1.0.154"
wasmer-middleware-common = "=0.17.0"
wasmer-runtime-core = "=0.17.0"
wasmer-singlepass-backend = "=0.17.0"
