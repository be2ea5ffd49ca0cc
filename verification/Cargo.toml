[package]
name = "rayer"
version = "0.1.0"
edition = "2021"
publish = false

[dependencies]
pdqselect = "*"
rand_xoshiro = "*"
image = "*"
crossbeam-channel = "*"
tempfile = "*"
obj = "*"
rayon = "*"
clap = "*"
