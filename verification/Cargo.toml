[package]
name = "mimir"
version = "0.1.0"
edition = "2021"
publish = false

[dependencies]
blake3 = "1"
rusqlite = { version = "0.32", features = ["bundled"] }
r2d2 = "0.8"
r2d2_sqlite = "0.25"
lofty = "*"
walkdir = "2"
dirs = "*"
serde = { version = "1", features = ["derive"] }
notify = "*"
notify-debouncer-full = "*"
symphonia = { version = "*", features = ["all"] }
rubato = "*"
rodio = "*"
cpal = "*"
thiserror = "*"

[dev-dependencies]
tempfile = "3"
serde_json = "1"
