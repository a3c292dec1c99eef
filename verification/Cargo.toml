[package]
name = "apex_oled"
version = "0.1.0"
edition = "2021"
publish = false

[dependencies]
embedded-graphics = "0.8"
u8g2-fonts = "0.7"
libc = "0.2"
serde_json = "1"
wayland-client = "0.31"
wayland-protocols = { version = "0.32", features = ["client", "staging"] }
