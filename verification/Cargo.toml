[package]
name = "saveli"
version = "0.1.0"
edition = "2021"
publish = false

[dependencies]
app_dirs = "1"
clap = "2"
fs_extra = "1"
serde = { version = "1", features = ["derive"] }
serde_json = "1"
shellexpand = "2"
tempfile = "3"
