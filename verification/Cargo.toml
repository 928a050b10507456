[package]
name = "cad_extraction"
version = "0.1.0"
edition = "2021"
publish = false

[dependencies]
acadrust = { version = "0.3.3", features = ["serde"] }
clap = { version = "4", features = ["derive"] }
serde = { version = "1", features = ["derive"] }
serde_json = "1"
thiserror = "2"
egui = "*"
eframe = { version = "*", default-features = false, features = ["glow", "x11", "default_fonts"] }
rfd = { version = "*", default-features = false, features = ["xdg-portal"] }
