[package]
name = "telemetry_overlay"
version = "0.1.0"
edition = "2021"
publish = false

[dependencies]
compio = { version = "=0.19.2", features = ["runtime", "time"] }
eframe = { version = "=0.37.0", default-features = false, features = ["default_fonts", "glow", "x11"] }
egui = "=0.37.0"
egui_plot = "=0.38.0"
env_logger = "=0.11.11"
flume = "=0.12.0"
windows = { version = "0.52", features = ["Win32_Foundation", "Win32_Security", "Win32_System_Memory"] }
