[package]
name = "endfed"
version = "0.1.0"
edition = "2021"

[dependencies]
plt = "*"
