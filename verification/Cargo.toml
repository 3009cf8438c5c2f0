[package]
name = "healer"
version = "0.1.0"
edition = "2021"
publish = false

[dependencies]
rand = { version = "=0.8.8", features = ["small_rng"] }
hex = "=0.4.3"
log = "=0.4.35"
ahash = "=0.8.12"
regex = "1"
