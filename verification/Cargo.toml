[package]
name = "allcast"
version = "0.1.0"
edition = "2021"
publish = false

[dependencies]
anyhow = "1"
clap = { version = "4.5", features = ["derive", "env"] }
ctrlc = "3"
dirs = "6"
serde = { version = "1", features = ["derive"] }
toml = "0.8"
tracing = "0.1"
tracing-subscriber = { version = "0.3", default-features = false, features = ["fmt", "env-filter", "ansi", "std"] }
gstreamer = "0.23"
gstreamer-video = "0.23"
eframe = { version = "0.31", default-features = false, features = ["glow", "default_fonts", "wayland", "x11"] }
