[package]
name = "shell"
version = "0.1.0"
edition = "2021"
publish = false

[dependencies]
getopts = "*"
colored = "*"
pathdiff = "*"
chrono = "*"
signal-hook = "*"
