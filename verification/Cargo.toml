[package]
name = "gg"
version = "0.1.0"
edition = "2021"
publish = false

[dependencies]
ansi-escapes = "=0.2.0"
anyhow = "=1.0.104"
async-trait = "=0.1.92"
chrono = "=0.4.45"
crossterm = "=0.29.0"
dirs = "=7.0.0"
octocrab = "=0.47.1"
open = "=5.4.5"
rusqlite = "=0.41.0"
serde = { version = "=1.0.229", features = ["derive"] }
serde_json = "=1.0.154"
structopt = "=0.3.26"
tempfile = "=3.27.0"
termion = "=1.5.6"
tokio = { version = "=1.54.1", features = ["macros", "rt-multi-thread"] }
tui = { version = "=0.19.0", default-features = false, features = ["termion"] }
