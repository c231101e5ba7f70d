[package]
name = "scion"
version = "0.1.0"
edition = "2021"
publish = false

[dependencies]
audrey = { version = "=0.3.0", default-features = false, features = ["flac", "ogg_vorbis", "wav"] }
winit = "=0.29.15"
log = "=0.4.35"
bytemuck = { version = "=1.25.2", features = ["derive"] }
