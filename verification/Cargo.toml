[package]
name = "aniline"
version = "0.1.0"
edition = "2021"
publish = false

[dependencies]
wgpu = { version = "=0.12.0", features = ["spirv"] }
winit = "=0.26.1"
pollster = "=0.2.5"
naga = { version = "=0.8.5", features = ["wgsl-in", "glsl-in", "spv-in", "wgsl-out", "spv-out"] }
