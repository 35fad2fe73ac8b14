[package]
name = "jdd_crypto"
version = "0.1.0"
edition = "2021"
publish = false

[dependencies]
serde = { version = "=1.0.229", features = ["derive"] }
serde_json = "=1.0.154"
urlencoding = "=2.1.3"
reqwest = { version = "=0.12.28", default-features = false, features = ["blocking", "rustls-tls"] }
global-hotkey = "=0.7.0"
windows-sys = { version = "=0.59.0", features = ["Win32_Foundation", "Win32_UI_WindowsAndMessaging", "Win32_UI_Input_KeyboardAndMouse", "Win32_System_DataExchange"] }
core-graphics = "0.24"
