[package]
name = "kpsh"
version = "0.1.0"
edition = "2021"
publish = false

[dependencies]
qptrie = "=0.2.6"
rust-kpdb = "*"
rpassword = "=5.0.1"
clipboard = "=0.5.0"
docopt = "=1.1.1"
termios = "=0.3.3"
ansi_term = "=0.12.1"
serde = "*"
serde_derive = "*"
