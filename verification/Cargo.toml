[package]
name = "atref"
version = "0.5.1"
edition = "2021"
publish = false

[dependencies]
global-hotkey = "0.6"
nucleo-matcher = "0.3"
tiktoken-rs = "*"
base64 = "0.22"
image = { version = "0.25", default-features = false, features = ["png", "jpeg", "gif", "webp"] }
serde = { version = "1", features = ["derive"] }
serde_json = "1"
directories = "*"
ignore = "0.4"
notify = "*"
notify-debouncer-full = "*"
redb = "2"
arboard = "3"
enigo = "*"
windows = { version = "*", features = ["Win32_Foundation", "Win32_Graphics_Gdi", "Win32_UI_WindowsAndMessaging", "Win32_System_Console"] }
