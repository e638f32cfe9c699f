[package]
name = "git_zoxide"
version = "0.1.0"
edition = "2021"
publish = false

[dependencies]
anyhow = "=1.0.104"
bincode = "=1.3.3"
chrono = "=0.4.45"
clap = { version = "=4.6.7", features = ["derive"] }
console = "=0.16.6"
dialoguer = "=0.12.0"
dirs = "=7.0.0"
fastrand = "=2.5.0"
gitlab = "=0.1905.0"
nix = { version = "=0.31.3", features = ["fs", "user"] }
octocrab = "=0.40.0"
open = "=5.4.5"
pad = "=0.1.6"
regex = "=1.13.1"
serde = { version = "=1.0.229", features = ["derive"] }
serde_yaml = "=0.9.34"
shellexpand = "=3.1.2"
tokio = { version = "=1.54.1", features = ["rt-multi-thread"] }
