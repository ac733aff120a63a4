[package]
name = "voxel_core"
version = "0.1.0"
edition = "2021"
publish = false

[dependencies]
rand_xoshiro = "0.6"
noise = "0.8"
glam = { version = "0.24", features = ["serde", "bytemuck"] }
serde = { version = "1", features = ["derive"] }
toml = "0.5"
arrayvec = "0.7"
bytemuck = { version = "1", features = ["derive"] }
image = { version = "0.24", default-features = false, features = ["png"] }
pollster = { version = "0.3", features = ["macro"] }
wgpu = "0.16"
winit = { version = "0.28", default-features = false, features = ["x11"] }
