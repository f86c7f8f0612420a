[package]
name = "gloom_rs"
version = "0.1.0"
edition = "2021"
publish = false

[dependencies]
gl = "0.14"
glutin = { version = "0.29", default-features = false, features = ["x11"] }
nalgebra-glm = "0.18"
