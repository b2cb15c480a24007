[package]
name = "windows_permissions"
version = "0.1.0"
edition = "2021"
publish = false

[dependencies]
winapi = { version = "0.3", features = ["winnt", "winbase", "minwindef", "securitybaseapi", "sddl"] }
