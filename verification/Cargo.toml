[package]
name = "zenith"
version = "0.1.0"
edition = "2021"
publish = false

[dependencies]
clap = "*"
dirs = "*"
env_logger = "*"
futures = "*"
log = "*"
sysinfo = "*"
termion = "1"
tui = { version = "*", default-features = false, features = ["termion"] }
