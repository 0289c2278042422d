[package]
name = "toml4reds"
version = "0.1.0"
edition = "2021"
publish = false

[dependencies]
bytemuck = "*"
toml = "=1.1.6"
