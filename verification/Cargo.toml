[package]
name = "lob"
version = "0.1.0"
edition = "2021"
publish = false

[dependencies]
chrono = "*"
stable-vec = "*"
thiserror = "*"
