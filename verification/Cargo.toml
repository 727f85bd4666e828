[package]
name = "release_kthx"
version = "0.1.0"
edition = "2021"
publish = false

[dependencies]
semver = "1"
toml = "0.8"
toml_edit = "0.22"
anyhow = "1"
clap = { version = "4", features = ["derive"] }
