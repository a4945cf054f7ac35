[package]
name = "live_compositor"
version = "0.1.0"
edition = "2021"
publish = false

[dependencies]
schemars = "0.8"
thiserror = "1"
wgpu = { version = "*", default-features = false }
