[package]
name = "scanmem"
version = "0.1.0"
edition = "2021"
publish = false

[dependencies]
clap = { version = "4", features = ["derive"] }
serde = { version = "1", features = ["derive"] }
toml = "0.8"
rustix = { version = "1", features = ["process"] }
libc = "0.2"
ratatui = "0.29"
signal-hook = "0.3"
tracing = "0.1"
tracing-subscriber = "0.3"
