[package]
name = "emmylua_index"
version = "0.1.0"
edition = "2021"
publish = false

[dependencies]
regex = "1"
rowan = "*"
