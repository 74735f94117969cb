[package]
name = "pretty_nice_menus"
version = "0.1.0"
edition = "2021"
publish = false

[dependencies]
bevy = { version = "=0.18.1", default-features = false, features = ["bevy_camera", "bevy_window"] }
bevy_pretty_nice_input = "=0.6.1"
