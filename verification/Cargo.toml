[package]
name = "autd3-link-visualizer"
version = "0.1.0"
edition = "2021"
publish = false

[dependencies]
autd3-driver = "=27.0.0"
autd3-firmware-emulator = "=27.0.0"
itertools = "=0.12.1"
