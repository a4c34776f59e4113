[package]
name = "arugio"
version = "0.1.0"
edition = "2021"
publish = false

[dependencies]
async-trait = "=0.1.52"
bevy = { version = "=0.6.1", default-features = false, features = ["bevy_core_pipeline", "bevy_pbr", "bevy_render"] }
bevy_networking_turbulence = { version = "=0.4.1", default-features = false, features = ["use-udp"] }
rand = "=0.8.8"
serde = { version = "=1.0.229", features = ["derive"] }
turbulence = "=0.3.0"
