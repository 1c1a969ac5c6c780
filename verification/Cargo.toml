[package]
name = "gravi"
version = "0.1.5"
edition = "2021"
publish = false

[dependencies]
colored = "*"
