[package]
name = "koto_runtime"
version = "0.1.0"
edition = "2021"
publish = false

[dependencies]
saturating_cast = "*"
