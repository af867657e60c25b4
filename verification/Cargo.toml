[package]
name = "boquilahub"
version = "0.1.0"
edition = "2021"
publish = false

[dependencies]
image = { version = "=0.25.10", default-features = false, features = ["png", "jpeg", "bmp"] }
ndarray = "=0.16.1"
ort = { version = "=2.0.0-rc.9", default-features = false, features = ["ndarray", "load-dynamic"] }
ort-sys = { version = "=2.0.0-rc.9", default-features = false }
video-rs = { version = "=0.10.5", features = ["ndarray"] }
eframe = { version = "=0.31.1", default-features = false, features = ["glow", "default_fonts", "x11"] }
egui = "=0.31.1"
egui_extras = { version = "=0.31.1", default-features = false }
rfd = { version = "=0.15.4", default-features = false, features = ["xdg-portal", "tokio"] }
tokio = { version = "=1.54.1", features = ["rt-multi-thread", "macros"] }
clap = { version = "=4.6.7", default-features = false, features = ["std", "help", "usage", "error-context"] }
