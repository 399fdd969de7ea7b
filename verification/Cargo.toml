[package]
name = "cdb64"
version = "0.1.0"
edition = "2021"
publish = false

[dependencies]
memmap2 = "0.9"
thiserror = "2"
libc = "0.2"
