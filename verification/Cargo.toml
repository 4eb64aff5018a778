[package]
name = "cadence"
version = "0.1.0"
edition = "2021"
publish = false

[dependencies]
rand = "0.8"
rustfft = "6"
image = { version = "0.24", default-features = false }
ffmpeg-next = "4"
