[package]
name = "canonic"
version = "0.1.0"
edition = "2021"
publish = false

[dependencies]
anyhow = "1"
clap = { version = "4.5", features = ["derive"] }
crossterm = "0.29"
figment = { version = "0.10", features = ["toml"] }
ratatui = { version = "0.30", default-features = false, features = ["crossterm"] }
regex = "1"
reqwest = { version = "0.12", default-features = false, features = ["blocking", "json"] }
serde = { version = "1", features = ["derive"] }
serde_json = "1"
tantivy = { version = "0.24", default-features = false, features = ["mmap"] }
walkdir = "2"
