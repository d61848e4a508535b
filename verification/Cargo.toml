[package]
name = "er_character_scale"
version = "0.1.0"
edition = "2021"
publish = false

[dependencies]
serde = { version = "=1.0.229", features = ["derive"] }
toml = "=1.1.8"
windows = { version = "=0.58.0", features = ["Win32_Foundation", "Win32_System_Memory", "Win32_System_ProcessStatus", "Win32_System_SystemInformation", "Win32_System_Threading", "Win32_System_Diagnostics_Debug", "Win32_System_LibraryLoader"] }
