[package]
name = "playing_cards"
version = "0.1.0"
edition = "2021"
publish = false

[dependencies]
itertools = "*"
rand = "*"
rand_core = "*"

[dev-dependencies]
rand_xoshiro = "*"
