[package]
name = "audio-visualiser"
version = "0.1.0"
edition = "2021"
publish = false

[dependencies]
bytemuck = { version = "1", features = ["derive"] }
flexaudio = "0.8"
rustfft = "6"
