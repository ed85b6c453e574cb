[package]
name = "anim_curve"
version = "0.1.0"
edition = "2021"
publish = false

[dependencies]
egui = "0.21"
eframe = { version = "0.21", default-features = false, features = ["persistence", "glow", "default_fonts"] }
egui-notify = "0.6"
rfd = "0.11"
serde = { version = "1", features = ["derive"] }
