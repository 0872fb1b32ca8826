[package]
name = "random_line"
version = "0.1.0"
edition = "2021"
publish = false

[dependencies]
fetch-data = "=0.1.6"
rand = "=0.8.8"
rand_xoshiro = "=0.6.0"
thousands = "=0.2.0"
