[package]
name = "reactio"
version = "0.1.7"
edition = "2021"
publish = false

[dependencies]
libc = "0.2"
polling = "3"
