[package]
name = "receipter"
version = "0.1.0"
edition = "2021"
publish = false

[dependencies]
ab_glyph = "=0.2.32"
anyhow = "=1.0.104"
chrono = "=0.4.45"
chrono-tz = "=0.10.4"
clap = { version = "=4.6.7", features = ["derive"] }
env_logger = "=0.11.11"
escpos = { version = "=0.20.1", features = ["graphics"] }
ical = "=0.11.0"
image = { version = "=0.25.10", default-features = false, features = ["bmp", "gif", "jpeg", "png", "webp"] }
imageproc = { version = "=0.27.0", default-features = false, features = ["text"] }
jsonwebtoken = "=9.3.1"
log = "=0.4.35"
reqwest = { version = "=0.12.28", default-features = false, features = ["json", "rustls-tls"] }
rrule = "=0.14.0"
rusqlite = { version = "=0.41.1", features = ["bundled"] }
serde = { version = "=1.0.229", features = ["derive"] }
serde_json = { version = "=1.0.154", features = ["preserve_order"] }
tokio = { version = "=1.54.1", features = ["rt", "time"] }
toml = "=1.1.8"
ureq = "=3.5.1"
