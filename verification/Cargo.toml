[package]
name = "deskbar"
version = "0.1.0"
edition = "2021"
publish = false

[dependencies]
anyhow = "=1.0.104"
async-compat = "=0.2.6"
chrono = { version = "=0.4.45", default-features = false, features = ["clock", "std"] }
clap = { version = "=4.6.7", features = ["derive"] }
dbus = "=0.9.12"
freedesktop-icons = "=0.4.0"
futures-timer = "=3.0.4"
hyprland = "=0.3.13"
image = { version = "=0.25.10", default-features = false, features = ["png", "jpeg"] }
mpris = "=2.1.0"
reqwest = { version = "=0.13.5", default-features = false }
tokio = { version = "=1.54.1", features = ["rt", "macros"] }
