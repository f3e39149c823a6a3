[package]
name = "shell"
version = "0.1.0"
edition = "2021"
publish = false

[dependencies]
anyhow = "=1.0.104"
serde = { version = "=1.0.229", features = ["derive"] }
serde_json = "=1.0.154"
serde-saphyr = "=2.0.0"
nucleo-matcher = "=0.3.1"
freedesktop-desktop-entry = "=0.8.4"
log = "=0.4.35"
env_logger = "=0.11.11"
egui = "=0.37.0"
egui-wgpu = "=0.37.0"
wgpu = "=30.0.1"
pollster = "=1.0.1"
raw-window-handle = "=0.6.2"
smithay-client-toolkit = { version = "=0.21.1", default-features = false, features = ["calloop"] }
