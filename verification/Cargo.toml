[package]
name = "niri_clip"
version = "0.6.0"
edition = "2021"
publish = false

[dependencies]
anyhow = "1"
base64 = "0.22"
blake3 = { version = "1", features = ["pure"] }
chrono = "0.4"
clap = { version = "4", features = ["derive"] }
clap_complete = "4"
clap_mangen = "0.2"
dirs = "*"
iced = { version = "0.14", default-features = false, features = ["tiny-skia", "wayland", "image-without-codecs", "advanced", "tokio"] }
image = { version = "0.25", default-features = false, features = ["png", "jpeg", "webp"] }
libc = "0.2"
regex = "1"
rusqlite = { version = "0.31", features = ["bundled"] }
serde = { version = "1", features = ["derive"] }
serde_json = "1"
tokio = { version = "1", features = ["rt", "rt-multi-thread", "macros", "time", "process"] }
toml = "0.8"
which = "*"
wl-clipboard-rs = "0.9"
