[package]
name = "herdr_floax"
version = "0.1.0"
edition = "2021"
publish = false

[dependencies]
ratatui = "0.29"
vt100 = "0.15"
portable-pty = "0.8"
signal-hook = "0.3"
