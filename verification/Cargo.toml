[package]
name = "cargo_unleash"
version = "0.1.0"
edition = "2021"
publish = false

[dependencies]
semver = "1"
toml_edit = "*"
regex = "*"
sha1 = "*"
petgraph = "*"
