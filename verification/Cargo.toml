[package]
name = "pexand"
version = "2.0.0"
edition = "2021"
publish = false

[dependencies]
chrono = "=0.4.45"
fuzzy-matcher = "=0.3.7"
serde = { version = "=1.0.229", features = ["derive"] }
serde_json = "=1.0.154"
rusqlite = { version = "=0.32.1", features = ["bundled"] }
crossbeam-channel = "=0.5.17"
clipboard-win = "=5.4.3"
enigo = "=0.2.1"
rdev = "=0.5.3"
global-hotkey = "=0.6.4"
rfd = "=0.15.4"
iced = { version = "=0.14.0", default-features = false, features = ["tiny-skia"] }
windows = { version = "=0.56.0", features = ["Win32_Foundation", "Win32_System_Threading", "Win32_UI_WindowsAndMessaging"] }
