[package]
name = "lsv"
version = "0.1.0"
edition = "2021"
publish = false

[dependencies]
unicode-width = "*"
chrono = "*"
crossterm = "*"
ratatui = "*"
ratatui-image = "*"
image = "*"
mlua = { version = "*", features = ["lua54", "vendored"] }
whoami = "*"
