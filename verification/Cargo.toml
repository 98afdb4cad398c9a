[package]
name = "kakvide"
version = "0.1.0"
edition = "2021"
publish = false

[dependencies]
anyhow = "=1.0.104"
clap = { version = "=4.6.7", features = ["derive"] }
objc2 = "0.6"
objc2-app-kit = "0.3"
objc2-foundation = "0.3"
serde = { version = "=1.0.229", features = ["derive"] }
serde_json = "=1.0.154"
skia-safe = "0"
softbuffer = "=0.4.8"
toml = "=0.9.12"
unicode-segmentation = "=1.13.3"
unicode-width = "=0.2.3"
winit = "=0.30.13"
