[package]
name = "soundpad_bard"
version = "0.1.0"
edition = "2021"
publish = false

[dependencies]
aes-gcm = "0.10"
base64 = "0.22"
sha2 = "0.10"
rand = "0.8"
anyhow = "1"
serde = { version = "1", features = ["derive"] }
serde_json = "1"
tokio = { version = "1", features = ["rt-multi-thread", "time"] }
obws = "*"
global-hotkey = "*"
crossbeam-channel = "*"
muda = "*"
tray-icon = "*"
gtk = "*"
image = { version = "*", default-features = false, features = ["png"] }
rfd = { version = "*", default-features = false, features = ["gtk3"] }
eframe = { version = "*", default-features = false, features = ["default_fonts", "glow", "x11"] }
