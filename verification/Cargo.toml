[package]
name = "wallpaper_utils"
version = "0.1.0"
edition = "2021"
publish = false

[dependencies]
dirs = "*"
image = "*"
itertools = "*"
serde = { version = "1", features = ["derive"] }
serde_json = "1"
