[package]
name = "lowkit"
version = "0.1.0"
edition = "2021"
publish = false

[dependencies]
cgmath = "*"
gltf = "*"
image = "*"
