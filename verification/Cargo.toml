[package]
name = "camera_stream"
version = "0.1.0"
edition = "2021"
publish = false

[dependencies]
tokio = { version = "1", features = ["rt-multi-thread", "macros", "net", "sync", "io-util"] }
color-eyre = "0.6"
image = { version = "0.25", default-features = false, features = ["jpeg"] }
imageproc = { version = "0.25", default-features = false }
face_id = { version = "0.6", default-features = false }
log = "0.4"
