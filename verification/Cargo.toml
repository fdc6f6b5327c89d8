[package]
name = "klipt"
version = "0.1.0"
edition = "2021"
publish = false

[dependencies]
serde = { version = "=1.0.229", features = ["derive"] }
serde_json = "=1.0.154"
trash = "=5.2.9"
notify = "=8.2.1"
jpeg-encoder = "=0.7.1"
ffmpeg-the-third = "=6.0.0"
clipboard-win = "=5.4.3"
windows = { version = "=0.61.3", features = ["Win32_Foundation", "Win32_Graphics_Dwm", "Win32_Graphics_Gdi", "Win32_UI_WindowsAndMessaging"] }
