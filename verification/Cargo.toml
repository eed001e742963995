[package]
name = "wallet_core"
version = "0.1.0"
edition = "2021"
publish = false

[dependencies]
bdk = { version = "0.13", features = ["keys-bip39", "rpc"] }
crossterm = "0.25"
dirs-next = "2"
tui = "0.19"
