[package]
name = "devtimer"
version = "0.1.0"
edition = "2021"
publish = false

[dependencies]
clap = "*"
dirs = "*"

[dev-dependencies]
serde_json = "*"
