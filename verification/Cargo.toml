[package]
name = "dm_test_cleanup"
version = "0.1.0"
edition = "2021"
publish = false

[dependencies]
libmount = "*"
nix = { version = "*", features = ["mount"] }
uuid = "*"
