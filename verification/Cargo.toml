[package]
name = "rustchat"
version = "0.1.0"
edition = "2021"
publish = false

[dependencies]
clap = "2"
colored = "1"
error-chain = "0.12"
log = "0.4"
