[package]
name = "deepin-sticky-notes"
version = "0.1.0"
edition = "2021"
publish = false

[dependencies]
anyhow = "=1.0.104"
directories = "5"
global-hotkey = "0.8"
serde = { version = "1", features = ["derive"] }
serde_json = "1"
slint = { version = "1.18", default-features = false, features = ["compat-1-2", "std"] }
tray-icon = "0.25"
