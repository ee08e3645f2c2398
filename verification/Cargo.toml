[package]
name = "raycaster"
version = "0.1.0"
edition = "2021"
publish = false

[dependencies]
image = { version = "0.24", default-features = false, features = ["png"] }
minifb = { version = "0.27", default-features = false, features = ["x11"] }
rand = "0.8"
rodio = { version = "0.17", default-features = false, features = ["vorbis", "wav"] }
rusttype = "0.9"
