[package]
name = "insta_keyframes"
version = "0.1.0"
edition = "2021"
publish = false

[dependencies]
anyhow = "1"
bitflags = { version = "2", features = ["serde"] }
clap = { version = "4", features = ["derive"] }
ffmpeg-next = "*"
image = { version = "0.25", default-features = false, features = ["png", "jpeg"] }
imageproc = { version = "0.25", default-features = false }
nalgebra = "*"
rayon = "1"
rusqlite = "*"
serde = { version = "1", features = ["derive"] }
serde_json = "1"
telemetry-parser = "*"
thiserror = "*"
tracing = "0.1"
tracing-subscriber = { version = "0.3", features = ["env-filter"] }
walkdir = "2"
