[package]
name = "step_debugger"
version = "0.1.0"
edition = "2021"
publish = false

[dependencies]
horrorshow = "0.6"
