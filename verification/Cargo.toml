[package]
name = "amsel_chess_rust"
version = "0.1.0"
edition = "2021"
publish = false

[dependencies]
bit = "*"
rand = "0.8"
rayon = "1"
