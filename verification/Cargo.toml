[package]
name = "nova_shell"
version = "0.1.0"
edition = "2021"
publish = false

[dependencies]
colored = "2"
crossterm = "0.27"
libc = "0.2"
