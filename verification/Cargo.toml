[package]
name = "ttree"
version = "0.1.0"
edition = "2021"
publish = false

[dependencies]
indexmap = "=2.14.2"
anyhow = "=1.0.104"
crossterm = "=0.29.0"
directories = "=6.0.0"
portable-pty = "=0.9.0"
ratatui = "=0.30.2"
serde = { version = "=1.0.229", features = ["derive"] }
tokio = { version = "=1.54.1", features = ["full"] }
toml = "=1.1.8"
tui-term = "=0.3.4"
vt100 = "=0.16.2"
