[package]
name = "picoshrink"
version = "0.1.0"
edition = "2021"
publish = false

[dependencies]
eframe = { version = "=0.37.0", default-features = false, features = ["glow", "x11", "default_fonts"] }
image = { version = "=0.25.10", default-features = false, features = ["png"] }
rfd = { version = "=0.17.2", default-features = false, features = ["xdg-portal"] }
