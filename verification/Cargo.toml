[package]
name = "minesweeper"
version = "0.1.0"
edition = "2021"
publish = false

[dependencies]
rand = "=0.9.5"
bevy = { version = "=0.17.3", default-features = false, features = ["std", "bevy_window", "bevy_ui", "bevy_text", "bevy_camera", "bevy_color", "default_font"] }
