[package]
name = "mono_display"
version = "0.1.0"
edition = "2021"
publish = false

[dependencies]
font-rs = "0.1.3"
rppal = "*"
sdl2 = "*"
