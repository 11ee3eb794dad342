[package]
name = "vicash"
version = "0.1.0"
edition = "2021"
publish = false

[dependencies]
anyhow = "1"
bytemuck = "1"
clap = { version = "4", features = ["derive"] }
directories = "5"
env_logger = "0.11"
image = { version = "0.25", default-features = false, features = ["png", "jpeg"] }
log = "0.4"
parking_lot = "0.12"
ringbuf = "0.4"
serde = { version = "1", features = ["derive"] }
serde_json = "1"
sysinfo = "0.32"
tiny_http = "0.12"
toml = "0.8"
ureq = "2"
windows-sys = { version = "0.59", features = ["Win32_Foundation", "Win32_System_Console", "Win32_System_Threading"] }
