[package]
name = "lmmp"
version = "0.1.0"
edition = "2021"
publish = false

[dependencies]
anyhow = "1"
serde = { version = "1", features = ["derive"] }
walkdir = "2"
id3 = "*"
mp4ameta = "*"
metaflac = "*"
lewton = "*"
opus_headers = "*"
ffmpeg-next = "*"
vorbisfile-sys = "*"
vorbis-sys = "*"
libc = "0.2"
