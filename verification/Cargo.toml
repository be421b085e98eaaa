[package]
name = "tang"
version = "0.1.0"
edition = "2021"
publish = false

[dependencies]
anyhow = "1"
clack-extensions = { version = "0.2", features = ["clack-host", "audio-ports", "params", "preset-discovery"] }
clack-host = "0.2"
clap = { version = "4", features = ["derive"] }
cpal = { version = "0.15", features = ["jack"] }
crossbeam-channel = "0.5"
crossterm = "0.28"
env_logger = "0.11"
libc = "0.2"
libloading = "0.8"
livi = "0.7"
log = "0.4"
ratatui = "0.29"
serde = { version = "1", features = ["derive"] }
toml = "0.8"
vst3 = "0.3"
