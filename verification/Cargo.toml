[package]
name = "serialtui"
version = "0.1.0"
edition = "2021"
publish = false

[dependencies]
arboard = "*"
crossterm = "*"
ratatui = "*"
serialport = { version = "*", default-features = false }
