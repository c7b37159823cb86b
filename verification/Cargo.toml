[package]
name = "dm_cleanup"
version = "0.1.0"
edition = "2021"
publish = false

[dependencies]
mnt = "*"
nix = { version = "*", features = ["mount"] }
