[package]
name = "unlocker"
version = "0.1.0"
edition = "2021"
publish = false

[dependencies]
toml = "*"
dirs = "*"
color-eyre = "*"
tracing = "*"
tracing-subscriber = "*"
