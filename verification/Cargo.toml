[package]
name = "process_explorer"
version = "0.1.0"
edition = "2021"
publish = false

[dependencies]
eframe = { version = "=0.24.1", default-features = false, features = ["default_fonts", "glow", "x11"] }
egui_plot = "=0.24.2"
sysinfo = { version = "0.31", default-features = false, features = ["system"] }
