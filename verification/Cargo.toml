[package]
name = "pattrns"
version = "0.1.0"
edition = "2021"
publish = false

[dependencies]
rand = "0.9"
rand_xoshiro = "0.7"
rust-music-theory = "=0.2.0"
