[package]
name = "modbus_client"
version = "0.1.0"
edition = "2021"
publish = false

[dependencies]
anyhow = "1"
arc-swap = "1"
clap = { version = "4", features = ["derive"] }
eframe = { version = "*", default-features = false, features = ["default_fonts", "glow", "x11"] }
egui_extras = { version = "*", default-features = false }
thiserror = "2"
tokio = { version = "1", features = ["full"] }
tokio-modbus = "*"
tokio-serial = { version = "5", default-features = false }
