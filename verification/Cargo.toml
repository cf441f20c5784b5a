[package]
name = "core_math_rs"
version = "0.1.0"
edition = "2021"
publish = false

[dependencies]
hexf = "0.2"
