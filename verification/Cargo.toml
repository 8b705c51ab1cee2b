[package]
name = "mosaic"
version = "0.1.0"
edition = "2021"
publish = false

[dependencies]
clap = "=2.34.0"
image = { version = "=0.25.10", default-features = false, features = ["bmp", "gif", "hdr", "ico", "jpeg", "png", "pnm", "tga", "tiff", "webp"] }
num = "=0.4.3"
serde = { version = "=1.0.229", features = ["derive"] }
serde_derive = "=1.0.229"
serde_json = "=1.0.154"
walkdir = "=2.5.0"
