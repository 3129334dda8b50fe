[package]
name = "wgpu_isp"
version = "0.1.0"
edition = "2021"
publish = false

[dependencies]
bytemuck = "*"
glam = "*"
gpwgpu = "*"
serde = { version = "*", features = ["derive"] }
serde_json = "*"
