[package]
name = "registry_io"
version = "0.9.0"
edition = "2021"
publish = false

[dependencies]
arc-swap = "1"
