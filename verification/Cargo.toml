[package]
name = "bucketpick"
version = "0.1.0"
edition = "2021"
publish = false

[dependencies]
dunce = "*"
rand = "*"
toml = "*"
walkdir = "*"
