[package]
name = "cron_manager"
version = "0.1.0"
edition = "2021"
publish = false

[dependencies]
chrono = { version = "0.4", features = ["serde"] }
plist = "1"
serde = { version = "1", features = ["derive"] }
eframe = { version = "0.31", default-features = false, features = ["default_fonts", "glow", "x11"] }
