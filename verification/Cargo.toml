[package]
name = "subsurface"
version = "0.1.0"
edition = "2021"
publish = false

[dependencies]
rand = "=0.10.3"
bevy = { version = "=0.19.1", default-features = false, features = ["bevy_sprite_render", "bevy_log", "png"] }
