[package]
name = "screenshot"
version = "0.1.0"
edition = "2021"
publish = false

[dependencies]
libc = "=0.2.191"
winapi = { version = "=0.3.9", features = ["shellscalingapi", "wingdi", "winuser", "minwindef", "ntdef", "windef"] }
