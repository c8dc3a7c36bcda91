[package]
name = "oxideav_g722"
version = "0.1.0"
edition = "2021"
publish = false

[dependencies]
oxideav-core = "*"
