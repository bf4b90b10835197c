[package]
name = "qrcode_video"
version = "0.1.0"
edition = "2021"
publish = false

[dependencies]
xz = "*"
qrcode = "*"
rqrr = "*"
image = { version = "*", default-features = false, features = ["png"] }
glob = "*"
ffmpeg-next = "*"
