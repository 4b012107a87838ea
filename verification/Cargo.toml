[package]
name = "voxel_carver"
version = "0.1.0"
edition = "2021"
publish = false

[dependencies]
clap = { version = "*", features = ["derive"] }
image = "*"
indicatif = "*"
nalgebra-glm = "*"
serde = { version = "*", features = ["derive"] }
serde_json = "*"
