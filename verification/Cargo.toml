[package]
name = "bumplog"
version = "0.1.0"
edition = "2021"
publish = false

[dependencies]
semver = "*"
git2 = "*"
clap = { version = "*", features = ["derive"] }
