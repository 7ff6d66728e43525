[package]
name = "mdedit"
version = "0.1.0"
edition = "2021"
publish = false

[dependencies]
regex = "1"
pulldown-cmark = { version = "0.12", default-features = false }
serde_json = "1"
egui = { version = "0.29", default-features = false, features = ["default_fonts"] }
eframe = { version = "0.29", default-features = false, features = ["default_fonts", "glow", "x11"] }
rfd = { version = "0.15", default-features = false, features = ["xdg-portal", "tokio"] }
