[package]
name = "board_repr_perft"
version = "0.1.0"
edition = "2021"
publish = false

[dependencies]
fumen = "=0.1.2"
rand = "=0.8.8"
rand_pcg = "0.3"
