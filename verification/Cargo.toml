[package]
name = "astral_wfp"
version = "0.1.0"
edition = "2021"
publish = false

[dependencies]
anyhow = "1"
elevated-command = "1"
flutter_rust_bridge = "2"
windows = { version = "0.58", features = ["Win32_Foundation", "Win32_NetworkManagement_WindowsFilteringPlatform", "Win32_Security", "Win32_System_Rpc"] }
