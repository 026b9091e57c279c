[package]
name = "win32_input"
version = "0.1.0"
edition = "2021"
publish = false

[dependencies]
enigo = { version = "*", default-features = false, features = ["x11rb"] }
windows-sys = { version = "*", features = ["Win32_Foundation", "Win32_Graphics_Gdi", "Win32_Security", "Win32_System_Threading", "Win32_UI_Input_KeyboardAndMouse", "Win32_UI_WindowsAndMessaging"] }
