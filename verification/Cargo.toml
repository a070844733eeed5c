[package]
name = "aportal"
version = "0.0.9"
edition = "2021"
publish = false

[dependencies]
env_logger = "=0.11.11"
log = "=0.4.35"
png = "=0.17.16"
serde = { version = "=1.0.229", features = ["derive"] }
serde_yml = "=0.0.11"
windows = { version = "=0.58.0", features = ["Win32_Foundation", "Win32_Graphics_Direct3D", "Win32_Graphics_Direct3D11", "Win32_Graphics_Dxgi", "Win32_Graphics_Dxgi_Common", "Win32_Graphics_Gdi", "Win32_System_LibraryLoader", "Win32_System_Performance", "Win32_UI_HiDpi", "Win32_UI_Input_KeyboardAndMouse", "Win32_UI_Shell", "Win32_UI_WindowsAndMessaging"] }
