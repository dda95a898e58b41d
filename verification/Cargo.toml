[package]
name = "world_nav"
version = "0.1.0"
edition = "2021"
publish = false

[dependencies]
regex = "=1.13.1"
git2 = { version = "=0.21.0", default-features = false }
dirs = "=7.0.0"
walkdir = "=2.5.0"
clap = { version = "=4.6.7", features = ["derive"] }
serde = { version = "=1.0.229", features = ["derive"] }
serde_json = "=1.0.154"
toml = "=1.1.8"
semver = "=1.0.28"
handlebars = "=6.4.4"
rusqlite = { version = "=0.41.0", features = ["bundled"] }
skim = "=5.8.0"
atty = "=0.2.14"
crossbeam-channel = "=0.5.17"
config = { version = "=0.15.27", default-features = false, features = ["json"] }
ratatui = "=0.30.2"
ansi-to-tui = "=8.0.1"
