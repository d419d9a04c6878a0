[package]
name = "meowmic"
version = "0.2.15"
edition = "2021"
publish = false

[dependencies]
chrono = "0.4"
crossbeam-channel = "0.5"
deep_filter = "0.2"
env_logger = "0.11"
log = "0.4"
nnnoiseless = "0.5"
parking_lot = "0.12"
ringbuf = "0.4"
rustfft = "6"
serde = { version = "1", features = ["derive"] }
serde_json = "1"
tract-onnx = "*"
wasapi = "0.23"
windows = { version = "*", features = ["Win32_Foundation", "Win32_System_Threading", "Win32_UI_WindowsAndMessaging", "Win32_Media_Audio", "Win32_System_Com", "Win32_System_Diagnostics_ToolHelp"] }
