[package]
name = "artifact_resolver"
version = "0.1.0"
edition = "2021"
publish = false

[dependencies]
indicatif = "0.17"
toml = "0.8"
