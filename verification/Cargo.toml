[package]
name = "image_sample"
version = "0.1.0"
edition = "2021"
publish = false

[dependencies]
pixeli = "*"
num-traits = "0.2"
