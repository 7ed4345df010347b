[package]
name = "hokm"
version = "0.1.0"
edition = "2021"
publish = false

[dependencies]
crossterm = "0.28"
ratatui = "0.29"
eframe = { version = "0.29", default-features = false, features = ["default_fonts", "glow", "x11"] }
