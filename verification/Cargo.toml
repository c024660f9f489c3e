[package]
name = "memsentinel"
version = "0.1.0"
edition = "2021"
publish = false

[dependencies]
anyhow = "*"
clap = { version = "*", features = ["derive"] }
comfy-table = "*"
humansize = "*"
libc = "*"
nix = { version = "*", features = ["signal"] }
procfs = "*"
serde = { version = "*", features = ["derive"] }
serde_json = "*"
signal-hook = "*"
toml = "*"
tracing = "*"
tracing-subscriber = "*"
