[package]
name = "flowengine"
version = "0.1.0"
edition = "2021"
publish = false

[dependencies]
font8x8 = "0.3"
anyhow = "1"
bytemuck = "1"
cpal = "0.15"
ringbuf = "0.4"
realfft = "3"
drm = "0.14"
gbm = "0.18"
glow = "0.16"
khronos-egl = { version = "6", features = ["static"] }
