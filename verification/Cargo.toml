[package]
name = "nexus_rbd"
version = "0.1.0"
edition = "2021"
publish = false

[dependencies]
bytemuck = { version = "1", features = ["derive"] }
glamx = "*"
khal-std = "*"
parry2d = "*"
parry3d = "*"
rapier2d = "*"
rapier3d = "*"
