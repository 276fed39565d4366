[package]
name = "presetcss"
version = "0.1.0"
edition = "2021"
publish = false

[dependencies]
toml = { version = "=0.8.23", features = ["preserve_order"] }
indexmap = "=2.14.2"
serde = "=1.0.229"
strsim = "=0.11.1"
aho-corasick = "=1.1.5"
globset = "=0.4.21"
walkdir = "=2.5.0"
clap = { version = "=4.6.7", features = ["derive"] }
notify = "=8.2.1"
notify-debouncer-mini = "=0.7.0"
