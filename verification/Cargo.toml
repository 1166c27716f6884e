[package]
name = "customaio"
version = "0.1.0"
edition = "2021"
publish = false

[dependencies]
tiny-skia = "=0.11.4"
ab_glyph = "=0.2.32"
serde = { version = "=1.0.229", features = ["derive"] }
toml = "=0.8.23"
hidapi = { version = "=2.6.7", default-features = false, features = ["linux-native-basic-udev"] }
rusb = "=0.9.4"
nvml-wrapper = "=0.13.0"
libloading = "=0.8.9"
windows-sys = { version = "=0.61.2", features = ["Win32_Foundation", "Win32_System_Console"] }
