[package]
name = "oslab"
version = "0.1.0"
edition = "2021"
publish = false

[dependencies]
chrono = "0.4"
gethostname = "0.4"
libc = "0.2"
memmap2 = "0.9"
nix = "0.26"
procfs = "0.16"
rand = "0.8"
shared_memory = "0.12"
signal-hook = "0.3"
sysinfo = "0.29"
tokio = { version = "1", default-features = false, features = ["rt-multi-thread", "sync", "time"] }
