[package]
name = "evm_loader"
version = "0.1.0"
edition = "2021"
publish = false

[dependencies]
ethnum = "=1.5.3"
serde = { version = "=1.0.229", features = ["derive"] }
serde_bytes = "=0.11.19"
bincode = "=1.3.3"
hex = "=0.4.3"
solana-program = "1.18"
