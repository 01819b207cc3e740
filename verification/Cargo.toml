[package]
name = "pdf-viewer"
version = "0.1.0"
edition = "2021"
publish = false

[dependencies]
eframe = { version = "=0.31.1", default-features = false, features = ["default_fonts", "glow", "x11"] }
pdfium-render = { version = "=0.8.37", features = ["sync"] }
rfd = { version = "=0.15.4", default-features = false, features = ["xdg-portal", "tokio"] }
env_logger = { version = "=0.11.11", default-features = false }
