[package]
name = "casterm"
version = "1.0.0"
edition = "2021"
publish = false

[dependencies]
serialport = { version = "4", default-features = false }
dark-light = "2"
vte = "*"
clap = { version = "4", features = ["derive"] }
serde = { version = "1", features = ["derive"] }
serde_json = "1"
toml = "*"
figment = { version = "0.10", features = ["yaml", "env"] }
dirs = "*"
crossterm = "*"
portable-pty = "*"
tokio = { version = "1", features = ["rt", "sync", "macros", "net", "time"] }
russh = "*"
