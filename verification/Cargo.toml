[package]
name = "voxel_render"
version = "0.1.0"
edition = "2021"
publish = false

[dependencies]
erupt = "=0.22.0+204"
winit = "=0.26.1"
raw-window-handle = "=0.4.3"
vk-alloc = "=2.3.0"
ultraviolet = "=0.10.0"
log = "=0.4.34"
env_logger = "=0.11.11"
