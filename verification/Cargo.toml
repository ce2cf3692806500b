[package]
name = "sf_compact"
version = "0.1.0"
edition = "2021"
publish = false

[dependencies]
quick-xml = "0.37"
anyhow = "1"
clap = { version = "4", features = ["derive"] }
glob = "0.3"
notify = "6"
notify-debouncer-mini = "0.4"
rayon = "1"
serde = { version = "1", features = ["derive"] }
serde_json = { version = "1", features = ["preserve_order"] }
serde_yaml = "0.9"
tiktoken-rs = "0.6"
walkdir = "2"
indexmap = "2"

[dev-dependencies]
tempfile = "3"
