[package]
name = "rustwave"
version = "0.1.0"
edition = "2021"
publish = false

[dependencies]
hound = "3.5"
clap = { version = "4", features = ["derive"] }
eframe = { version = "0.31", default-features = false, features = ["glow", "x11"] }
