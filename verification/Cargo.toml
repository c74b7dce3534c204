[package]
name = "ssubmit"
version = "0.1.0"
edition = "2021"
publish = false

[dependencies]
anyhow = "*"
byte-unit = "*"
clap = { version = "*", features = ["derive", "env"] }
duration-str = "*"
env_logger = "*"
log = "*"
sysinfo = "*"
