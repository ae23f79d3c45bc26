[package]
name = "elven"
version = "0.1.0"
edition = "2021"
publish = false

[dependencies]
rustc-demangle = "*"
memmap2 = "*"
anyhow = "*"
