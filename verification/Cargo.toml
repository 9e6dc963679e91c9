[package]
name = "onesol_swap"
version = "0.1.0"
edition = "2021"
publish = false

[dependencies]
num-traits = "0.2"
solana-program = "1"
spl-token = { version = "3", features = ["no-entrypoint"] }
spl-token-swap = { version = "2", features = ["no-entrypoint"] }
