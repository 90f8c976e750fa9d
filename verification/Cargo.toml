[package]
name = "kestrel"
version = "0.1.0"
edition = "2021"
publish = false

[dependencies]
anyhow = "1"
bytemuck = { version = "1", features = ["derive"] }
clap = { version = "4", features = ["derive"] }
env_logger = "0.11"
log = "0.4"
wgpu = { version = "27", default-features = false, features = ["std", "wgsl", "vulkan", "dx12", "metal"] }
