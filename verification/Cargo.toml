[package]
name = "paper"
version = "0.1.0"
edition = "2021"
publish = false

[dependencies]
rec = "=0.9.0"
try_from = "=0.3.2"
