[package]
name = "vnm_player"
version = "0.1.0"
edition = "2021"
publish = false

[dependencies]
base64 = "=0.22.1"
symphonia = { version = "=0.6.1", features = ["mp3"] }
serde = { version = "=1.0.229", features = ["derive"] }
log = "=0.4.35"
ringbuf = "=0.4.8"
cpal = "=0.15.3"
env_logger = "=0.11.11"
