[package]
name = "foundry"
version = "0.1.0"
edition = "2021"
publish = false

[dependencies]
uuid = { version = "*", features = ["v4"] }
glam = "*"
nalgebra-glm = "*"
yaml-rust2 = "*"
mlua = { version = "*", features = ["lua54", "vendored"] }
winit = "*"
bytemuck = "*"
