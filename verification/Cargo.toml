[package]
name = "just_bash"
version = "0.1.0"
edition = "2021"
publish = false

[dependencies]
regex-lite = "0.1"
flate2 = "1"
