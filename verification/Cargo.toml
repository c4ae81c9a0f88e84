[package]
name = "oxidized_image_processing"
version = "0.1.0"
edition = "2021"
publish = false

[dependencies]
ndarray = "0.15"
image = "0.24"
num = "0.4"
