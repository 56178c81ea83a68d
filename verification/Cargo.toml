[package]
name = "remtui"
version = "0.1.0"
edition = "2021"
publish = false

[dependencies]
sha1 = "0.10"
chrono = "0.4"
serde_json = "1"
toml = "0.8"
unicode-width = "0.2"
tokio = { version = "1", features = ["full"] }
crossterm = "0.28"
ratatui = "0.29"
clap = { version = "4", features = ["derive"] }
anyhow = "1"
shlex = "1"
tempfile = "3"
thiserror = "2"
