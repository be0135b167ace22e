[package]
name = "urlbum"
version = "0.1.0"
edition = "2021"
publish = false

[dependencies]
serde_json = "1"
image = { version = "0.25", default-features = false, features = ["bmp", "gif", "ico", "jpeg", "png", "tiff", "webp"] }
rusqlite = { version = "0.32", features = ["bundled"] }
ureq = "2"
webbrowser = "1"
