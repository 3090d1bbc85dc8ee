[package]
name = "tetrino"
version = "0.1.0"
edition = "2021"
publish = false

[dependencies]
rand = "0.8"
serde = { version = "1", features = ["derive"] }
bincode = "1"
toml = "0.8"
egui = "0.29"
egui-wgpu = "0.29"
egui-winit = "0.29"
wgpu = "22"
winit = "0.30"
image = { version = "0.25", default-features = false, features = ["png", "jpeg"] }
pollster = "0.3"
rfd = "0.15"
