[package]
name = "termtosvg"
version = "0.1.0"
edition = "2021"
publish = false

[dependencies]
anyhow = "=1.0.104"
clap = { version = "=4.6.7", features = ["derive"] }
env_logger = "=0.11.11"
indexmap = "2"
indoc = "=2.0.8"
nix = { version = "=0.29.0", features = ["term", "fs", "poll", "process", "signal", "ioctl"] }
rand = "=0.9.5"
roxmltree = "=0.21.2"
serde = { version = "=1.0.229", features = ["derive"] }
serde_json = "=1.0.154"
shlex = "=1.3.0"
tempfile = "=3.27.0"
thiserror = "=2.0.21"
unicode-width = "=0.2.3"
vte = "=0.15.0"
xmltree = "=0.12.0"

[dev-dependencies]
vte = "=0.15.0"
