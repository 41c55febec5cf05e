[package]
name = "image_guesser"
version = "0.1.0"
edition = "2021"
publish = false

[dependencies]
rand = "=0.9.5"
image = "=0.25.10"
egui = "=0.33.3"
egui_wgpu_backend = "=0.36.0"
egui_winit_platform = "=0.28.0"
winit = "=0.30.13"
wgpu = "=28.0.0"
pollster = "=1.0.1"
tinyfiledialogs = "=3.9.1"
