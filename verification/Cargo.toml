[package]
name = "precommit_cargo"
version = "0.1.0"
edition = "2021"
publish = false

[dependencies]
regex = "*"
semver = "*"
glob = "*"
clap = { version = "*", features = ["derive"] }
