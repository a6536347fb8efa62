[package]
name = "glyph_codec"
version = "0.1.0"
edition = "2021"
publish = false

[dependencies]
image = { version = "0.23.6", default-features = false, features = ["png"] }
