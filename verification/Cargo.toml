[package]
name = "firmata_board"
version = "0.1.0"
edition = "2021"
publish = false

[dependencies]
backoff = "0.4"
serialport = { version = "4", default-features = false }
snafu = "0.8"
tracing = "0.1"
