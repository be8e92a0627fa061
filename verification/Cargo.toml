[package]
name = "tallyrun"
version = "0.4.0"
edition = "2021"
publish = false

[dependencies]
libc = "0.2"
