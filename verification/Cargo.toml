[package]
name = "oxideav-avif"
version = "0.1.0"
edition = "2021"
publish = false

[dependencies]
oxideav-heif = "*"
oxideav-core = "*"
oxideav-av1 = "*"
