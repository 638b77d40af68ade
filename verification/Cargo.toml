[package]
name = "wave_engine"
version = "0.1.0"
edition = "2021"
publish = false

[dependencies]
bytemuck = "1"
candle-core = { version = "0.8", default-features = false }
pollster = "0.4"
rayon = "1"
rustfft = "6"
wgpu = "24"
