[package]
name = "survicraft"
version = "0.1.0"
edition = "2021"
publish = false

[dependencies]
bevy = { version = "=0.16.1", default-features = false, features = ["std", "bevy_log", "bevy_color", "bevy_state"] }
avian3d = { version = "0.3", default-features = false, features = ["3d", "f32", "parry-f32"] }
noise = "=0.9.0"
serde = { version = "=1.0.229", features = ["derive"] }
clap = { version = "=4.6.7", features = ["derive"] }
