[package]
name = "digital_elevation_model"
version = "0.1.0"
edition = "2021"
publish = false

[dependencies]
anyhow = "1"
glam = "*"
half = "2"
image = { version = "0.25", default-features = false, features = ["png", "tiff"] }
speedy = "0.8"
