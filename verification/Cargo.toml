[package]
name = "esp32_hardware_monitor"
version = "1.0.0"
edition = "2021"
publish = false

[dependencies]
serialport = { version = "4", default-features = false }
windows-sys = { version = "0.59", features = ["Win32_Foundation", "Win32_Security", "Win32_System_Com", "Win32_System_Registry", "Win32_System_SystemInformation", "Win32_System_Threading", "Win32_UI_Shell", "Win32_UI_WindowsAndMessaging"] }
