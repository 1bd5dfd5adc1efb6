[package]
name = "brag"
version = "0.1.0"
edition = "2021"
publish = false

[dependencies]
garb = "=0.2.8"
bytemuck = { version = "=1.25.2", features = ["derive"] }
