[package]
name = "vanta"
version = "0.1.0"
edition = "2021"
publish = false

[dependencies]
nucleo-matcher = "*"
meval = "*"
shell-words = "*"
dirs = "*"
freedesktop-icons = "*"
walkdir = "*"
serde = { version = "1", features = ["derive"] }
serde_json = "1"
notify = "*"
