[package]
name = "paras_inherent"
version = "0.1.0"
edition = "2021"
publish = false

[dependencies]
bitvec = "0.20"
rand = "0.8"
rand_chacha = "0.3"
