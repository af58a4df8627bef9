[package]
name = "soundscout"
version = "0.1.0"
edition = "2021"
publish = false

[dependencies]
serde = { version = "1", features = ["derive"] }
serde_json = "1"
toml = "*"
rusqlite = { version = "*", features = ["bundled"] }
r2d2 = "*"
r2d2_sqlite = "*"
symphonia = { version = "*", features = ["all"] }
realfft = "*"
rayon = "*"
walkdir = "*"
lru = "*"
dirs = "*"
thiserror = "*"
bytemuck = "*"
tokio = { version = "1", features = ["rt-multi-thread", "sync", "time", "macros"] }
tracing = "*"
tracing-subscriber = { version = "*", features = ["env-filter"] }
notify-debouncer-mini = "*"
arboard = "*"

[dev-dependencies]
tempfile = "*"
