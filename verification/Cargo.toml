[package]
name = "throttle"
version = "0.1.0"
edition = "2021"
publish = false

[dependencies]
futures-timer = "*"
pin-project-lite = "*"
