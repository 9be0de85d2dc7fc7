[package]
name = "mods_handler"
version = "0.1.0"
edition = "2021"
publish = false

[dependencies]
deunicode = "=1.6.2"
fuzzy-matcher = "=0.3.7"
scraper = "=0.29.0"
serde = { version = "=1.0.229", features = ["derive"] }
serde_json = "=1.0.154"
rusqlite = { version = "=0.40.2", features = ["bundled"] }
walkdir = "=2.5.0"
anyhow = "=1.0.104"
directories = "=6.0.0"
time = { version = "=0.3.55", features = ["formatting"] }
reqwest = { version = "=0.13.5", default-features = false }
headless_chrome = { version = "=0.9.0", default-features = false }
