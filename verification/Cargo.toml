[package]
name = "chunk_stream"
version = "0.1.0"
edition = "2021"
publish = false

[dependencies]
tetra = { version = "*", default-features = false, features = ["font_ttf", "texture_png"] }
log = "0.4"
env_logger = "*"
