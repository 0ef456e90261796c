[package]
name = "gloom_rs"
version = "0.1.0"
edition = "2021"
publish = false

[dependencies]
nalgebra-glm = "*"
nalgebra = "*"
gl = "*"
glutin = "0.29"
