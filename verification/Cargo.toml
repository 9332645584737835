[package]
name = "bevy_dice"
version = "0.1.0"
edition = "2021"
publish = false

[dependencies]
rand = "=0.8.8"
bevy = { version = "=0.9.1", default-features = false, features = ["bevy_asset", "bevy_scene", "render"] }
bevy_rapier3d = { version = "=0.20.0", default-features = false, features = ["dim3", "async-collider"] }
