[package]
name = "tron"
version = "0.1.0"
edition = "2021"

[dependencies]
tempfile = "*"
thiserror = "*"
which = "*"
