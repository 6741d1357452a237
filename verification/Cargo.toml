[package]
name = "photo_grid_print"
version = "0.1.0"
edition = "2021"
publish = false

[dependencies]
image = { version = "*", default-features = false, features = ["jpeg", "png", "webp", "bmp"] }
rayon = "*"
serde = { version = "*", features = ["derive"] }
serde_json = "*"
chrono = "*"
clap = { version = "*", features = ["derive"] }
anyhow = "*"
walkdir = "*"
open = "*"
eframe = { version = "*", default-features = false, features = ["glow", "default_fonts", "x11"] }
