[package]
name = "bevy_pointcloud"
version = "0.1.0"
edition = "2021"
publish = false

[dependencies]
slab = "=0.4.12"
thiserror = "=2.0.21"
serde = { version = "=1.0.229", features = ["derive"] }
serde_json = "=1.0.154"
bevy_math = "=0.17.3"
bevy_platform = "=0.17.3"
ordered-float = "=5.5.1"
bytemuck = "=1.25.2"
