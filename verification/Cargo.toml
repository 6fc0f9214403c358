[package]
name = "zfetch"
version = "0.1.0"
edition = "2021"
publish = false

[dependencies]
include_dir = "0.7"
regex = "1"
serde = { version = "1", features = ["derive"] }
serde_json = "1"
sysinfo = "0.30"
tokio = { version = "1", features = ["rt-multi-thread", "macros", "process", "time"] }
whoami = "1"
os_info = "3"
battery = "0.7"
libc = "0.2"
ash = "0.37"
gl = "0.14"
glutin = "0.30"
glutin-winit = "0.3"
winit = "0.28"
raw-window-handle = "0.5"
core-foundation = "0.9"
io-kit-sys = "0.4"
