[package]
name = "cbz_converter"
version = "0.1.0"
edition = "2021"
publish = false

[dependencies]
roxmltree = "=0.21.2"
natord = "=1.0.9"
serde = { version = "=1.0.229", features = ["derive"] }
serde_json = "=1.0.154"
walkdir = "=2.5.0"
zip = { version = "=9.2.2", default-features = false }
rfd = { version = "=0.17.2", default-features = false, features = ["xdg-portal"] }
egui = { version = "=0.37.0", default-features = false, features = ["default_fonts"] }
eframe = { version = "=0.37.0", default-features = false, features = ["glow", "x11", "default_fonts"] }
