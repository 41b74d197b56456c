[package]
name = "nix_eval_cache"
version = "0.1.0"
edition = "2021"
publish = false

[dependencies]
blake2 = "0.10"
hex = "0.4"
libc = "0.2"
nix = "0.26"
tempfile = "3"
ctor = "0.1"
lazy_static = "1"
