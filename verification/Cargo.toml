[package]
name = "motion_k"
version = "0.1.0"
edition = "2021"
publish = false

[dependencies]
vector2d = "=2.2.0"
serde = { version = "1", features = ["derive"] }
bincode = "=1.3.3"
osmpbf = "=0.3.8"
winit = "=0.29.15"
