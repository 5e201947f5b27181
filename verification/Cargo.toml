[package]
name = "writing"
version = "0.1.0"
edition = "2021"
publish = false

[dependencies]
serde_json = "1"
eframe = { version = "0.31", default-features = false, features = ["default_fonts", "glow", "x11"] }
rfd = "0.15"
ureq = { version = "2", features = ["json"] }
image = { version = "0.25", default-features = false, features = ["ico", "png"] }
