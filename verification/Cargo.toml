[package]
name = "rtic_scope"
version = "0.1.0"
edition = "2021"
publish = false

[dependencies]
chrono = "=0.4.45"
itm-decode = "=0.3.2"
nix = { version = "=0.31.3", features = ["term", "ioctl", "fs", "feature"] }
probe-rs = "=0.32.0"
git2 = "=0.21.0"
syn = { version = "=3.0.6", features = ["full"] }
proc-macro2 = "=1.0.107"
rtic-syntax = "=1.0.3"
libloading = "=0.9.0"
anyhow = "=1.0.104"
