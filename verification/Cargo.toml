[package]
name = "moteria"
version = "0.1.0"
edition = "2021"
publish = false

[dependencies]
anyhow = "*"
clap = "*"
lzma-rs = "*"
memmap = "*"
roxmltree = "*"
