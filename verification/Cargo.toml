[package]
name = "rt_image_rotator"
version = "0.1.0"
edition = "2021"
publish = false

[dependencies]
eframe = { version = "0.23", default-features = false, features = ["default_fonts", "glow", "persistence"] }
egui = "0.23"
egui_extras = { version = "0.23", default-features = false, features = ["file", "image"] }
eyre = "0.6"
serde = { version = "1", features = ["derive"] }
