[package]
name = "depth_of_field"
version = "0.1.0"
edition = "2021"
publish = false

[dependencies]
base64 = "*"
blake3 = { version = "*", default-features = false, features = ["std", "pure"] }
image = { version = "*", default-features = false, features = ["png"] }
half = { version = "*", features = ["bytemuck"] }
bytemuck = { version = "*", features = ["derive"] }
log = "*"
serde_json = "*"
wgpu = "*"
