[package]
name = "notepad"
version = "0.1.0"
edition = "2021"
publish = false

[dependencies]
iced = { version = "=0.14.0", default-features = false, features = ["tiny-skia", "x11", "markdown", "highlighter", "image-without-codecs", "tokio", "advanced"] }
iced_core = "=0.14.0"
image = { version = "=0.25.10", default-features = false, features = ["png", "jpeg", "gif", "webp", "bmp"] }
rusqlite = { version = "=0.40.2", features = ["bundled"] }
rusqlite_migration = "=2.6.0"
tokio = { version = "=1.54.1", features = ["sync"] }
rfd = { version = "=0.17.2", default-features = false, features = ["xdg-portal"] }
chrono = "=0.4.45"
uuid = { version = "=1.29.0", features = ["v4"] }
dirs = "=7.0.0"
