[package]
name = "bitmap_fonts"
version = "0.1.0"
edition = "2021"
publish = false

[dependencies]
euclid = "*"
i-slint-core = "*"
