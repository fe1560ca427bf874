[package]
name = "puzzle_search"
version = "0.1.0"
edition = "2021"
publish = false

[dependencies]
cubing = "*"
rand = "0.8"
lazy_static = "1"
