[package]
name = "blair_switch"
version = "0.1.0"
edition = "2021"
publish = false

[dependencies]
dashmap = "*"
arc-swap = "*"
crossbeam-channel = "*"
libc = "*"
rustyline = "*"
