[package]
name = "strix_lc_screen"
version = "0.1.0"
edition = "2021"
publish = false

[dependencies]
anyhow = "1"
clap = { version = "4", features = ["derive"] }
eframe = { version = "0.31", default-features = false, features = ["glow", "default_fonts", "x11"] }
hidapi = { version = "2.6", default-features = false, features = ["linux-native-basic-udev"] }
image = { version = "0.25", default-features = false, features = ["jpeg"] }
rfd = { version = "0.15", default-features = false, features = ["xdg-portal", "tokio"] }
serde = { version = "1", features = ["derive"] }
serde_json = "1"
winreg = "0.55"
