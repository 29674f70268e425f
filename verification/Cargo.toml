[package]
name = "cross_pattern"
version = "0.1.0"
edition = "2021"
publish = false

[dependencies]
byteorder = "=1.5.0"
eframe = { version = "=0.22.0", default-features = false, features = ["default_fonts", "glow"] }
image = { version = "=0.24.9", default-features = false, features = ["jpeg", "png"] }
rfd = "0.15"
time = "=0.1.45"
tracing-subscriber = "=0.3.23"
