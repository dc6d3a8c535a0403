[package]
name = "index_map"
version = "0.1.0"
edition = "2021"

[dependencies]
imbl = "*"
