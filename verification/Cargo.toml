[package]
name = "tangle_channels"
version = "0.1.0"
edition = "2021"
publish = false

[dependencies]
iota-crypto = { version = "=0.23.2", default-features = false, features = ["blake2b", "ed25519", "x25519", "chacha"] }
hex = "=0.4.3"
rand = "=0.8.8"
tokio = { version = "=1.54.1", features = ["rt-multi-thread", "macros", "time"] }
