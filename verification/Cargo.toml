[package]
name = "sovereign"
version = "0.1.0"
edition = "2021"
publish = false

[dependencies]
anyhow = "1"
bincode = "=1.3.3"
dirs = "6"
image = { version = "0.25", default-features = false, features = ["png"] }
image_hasher = "3"
rusqlite = { version = "*", features = ["bundled"] }
rusty-tesseract = "1"
tempfile = "3"
tokio = { version = "1", features = ["time", "rt", "macros"] }
webp = "0.3"
xcap = "*"
