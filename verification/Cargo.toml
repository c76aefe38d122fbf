[package]
name = "maze_raycaster"
version = "0.1.0"
edition = "2021"
publish = false

[dependencies]
rand = "*"
sdl2 = { version = "*", features = ["image", "ttf", "mixer"] }
