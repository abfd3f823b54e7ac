[package]
name = "lsyshell"
version = "0.1.0"
edition = "2021"
publish = false

[dependencies]
orion = "0.17"
eframe = { version = "0.31", default-features = false, features = ["default_fonts", "glow", "x11"] }
egui_extras = { version = "0.31", default-features = false }
ssh2 = "0.9"
crossbeam-channel = "0.5"
serde = { version = "1", features = ["derive"] }
serde_json = "1"
env_logger = "0.11"
