[package]
name = "voxel_world"
version = "0.1.0"
edition = "2021"
publish = false

[dependencies]
bytemuck = { version = "=1.25.2", features = ["derive"] }
cgmath = "=0.18.0"
egui = "=0.33.3"
egui-wgpu = "=0.33.3"
egui-winit = { version = "=0.33.3", default-features = false, features = ["x11"] }
noise = "=0.9.0"
winit = { version = "=0.30.13", default-features = false, features = ["rwh_06", "x11"] }
