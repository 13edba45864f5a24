[package]
name = "capsule_collision"
version = "0.1.0"
edition = "2021"
publish = false

[dependencies]
cgmath = "0.17"
gl = "0.14"
image = { version = "0.23", default-features = false, features = ["png", "jpeg"] }
rusttype = "0.8"
sdl2 = "0.32"
serde = { version = "1", features = ["derive"] }
serde_json = "1"
tobj = "2"
