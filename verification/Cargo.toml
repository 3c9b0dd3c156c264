[package]
name = "env_inventory"
version = "0.1.0"
edition = "2021"
publish = false

[dependencies]
inventory = "0.3"
shellexpand = "3"
thiserror = "1"
toml = "0.8"
