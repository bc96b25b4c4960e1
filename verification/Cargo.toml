[package]
name = "winreg2"
version = "0.1.0"
edition = "2021"
publish = false

[dependencies]
windows-sys = { version = "*", features = ["Win32_Foundation", "Win32_Security", "Win32_System_Registry", "Win32_System_Diagnostics_Debug"] }

[dev-dependencies]
rand = "=0.8.8"
