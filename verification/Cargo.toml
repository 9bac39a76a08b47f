[package]
name = "sand_simulation"
version = "0.1.0"
edition = "2021"
publish = false

[dependencies]
anyhow = "=1.0.104"
bytemuck = "=1.25.2"
log = "=0.4.34"
pollster = "=0.4.0"
thiserror = "=2.0.21"
wgpu = "=28.0.0"
winit = "=0.30.13"
