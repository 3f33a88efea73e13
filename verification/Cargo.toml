[package]
name = "jterm3"
version = "0.1.0"
edition = "2021"
publish = false

[dependencies]
base64 = "0.22"
fuzzy-matcher = "0.3"
image = { version = "0.25", default-features = false, features = ["png"] }
regex = "1"
unicode-normalization = "0.1"
unicode-width = "0.2"
uuid = { version = "1", features = ["v4"] }
smallvec = "1"
serde = { version = "1", features = ["derive"] }
serde_json = "1"
toml = "0.8"
dirs = "5"
libc = "0.2"
log = "0.4"
env_logger = "0.11"
once_cell = "1"
anyhow = "1"
iced = { version = "0.14", default-features = false, features = ["tiny-skia", "advanced", "image-without-codecs", "tokio", "x11"] }
