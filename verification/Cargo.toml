[package]
name = "grid_balancer"
version = "0.1.0"
edition = "2021"
publish = false

[dependencies]
itertools = "=0.10.5"
rand = "=0.8.8"
bevy = { version = "=0.8.1", default-features = false, features = ["bevy_asset", "render", "bevy_winit", "png", "x11"] }
bevy_easings = "=0.8.1"
