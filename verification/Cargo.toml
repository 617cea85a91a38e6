[package]
name = "scop"
version = "0.1.0"
edition = "2021"
publish = false

[dependencies]
gl = "=0.14.0"
glfw = { version = "=0.45.0", default-features = false }
image = "=0.19.0"
