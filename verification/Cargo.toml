[package]
name = "geodist"
version = "0.1.0"
edition = "2021"
publish = false

[dependencies]
h3ron = "*"
cache_2q = "*"
