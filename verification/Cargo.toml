[package]
name = "vegas"
version = "0.1.0"
edition = "2021"
publish = false

[dependencies]
anyhow = "1"
clap = { version = "4", features = ["derive"] }
libc = "0.2"
nix = { version = "0.29", features = ["fs", "mount", "process", "sched", "signal", "user"] }
tempfile = "3"
walkdir = "2"
