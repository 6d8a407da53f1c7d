[package]
name = "iced_color_map"
version = "0.1.0"
edition = "2021"
publish = false

[dependencies]
iced = { version = "=0.14.0", default-features = false, features = ["canvas", "tiny-skia", "x11", "thread-pool"] }
