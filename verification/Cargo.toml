[package]
name = "tiefring"
version = "0.1.0"
edition = "2021"
publish = false

[dependencies]
rand = "0.8"
torchbearer = "*"
bevy_ecs = "0.9"
wgpu = "0.14"
winit = "0.27"
winit_input_helper = "0.13"
raw-window-handle = "0.5"
pollster = "0.2"
image = { version = "0.24", default-features = false, features = ["png"] }
fontdue = "0.7"
rect_packer = "0.2"
glam = "0.22"
bytemuck = { version = "1", features = ["derive"] }
thiserror = "1"
anyhow = "1"
log = "0.4"
find_folder = "0.3"
