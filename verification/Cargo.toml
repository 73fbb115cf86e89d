[package]
name = "frame_engine"
version = "0.2.0"
edition = "2021"
publish = false

[dependencies]
serde = { version = "1", features = ["derive"] }
ron = "*"
rhai = { version = "1", features = ["internals"] }
rapier3d = "*"
