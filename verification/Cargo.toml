[package]
name = "tick_progress"
version = "0.1.0"
edition = "2021"
publish = false

[dependencies]
bevy_app = "0.14"
bevy_ecs = "0.14"
