[package]
name = "winassoc"
version = "0.1.0"
edition = "2021"
publish = false

[dependencies]
globset = "0.4"
serde = { version = "1", features = ["derive"] }
toml = "0.8"
anyhow = "1"
chrono = "0.4"
clap = "4"
dirs = "5"
winreg = "*"
windows = { version = "*", features = ["Win32_Foundation", "Win32_System_Com", "Win32_UI_Input_KeyboardAndMouse", "Win32_UI_WindowsAndMessaging", "Win32_UI_Shell", "Win32_Graphics_Gdi"] }
