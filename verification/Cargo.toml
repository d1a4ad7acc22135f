[package]
name = "cargo_patch"
version = "0.1.0"
edition = "2021"
rust-version = "1.95"
publish = false

[dependencies]
anyhow = "=1.0.104"
cargo = "=0.64.0"
cargo-util = "=0.2.1"
failure = "=0.1.8"
fs_extra = "=1.3.0"
kstring = "=2.0.0"
patch = "=0.7.0"
semver = "=1.0.28"
toml_edit = { version = "=0.14.4", features = ["easy"] }

[dev-dependencies]
regex = "=1.13.1"
