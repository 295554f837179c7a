[package]
name = "zproxy"
version = "0.1.0"
edition = "2021"
publish = false

[dependencies]
atty = "0.2"
clap = { version = "4", features = ["derive"] }
env_logger = "*"
flate2 = "1"
humantime = "2"
log = "0.4"
mime_guess = "2"
percent-encoding = "2"
regex = "1"
ws = "*"
zstd = "*"
