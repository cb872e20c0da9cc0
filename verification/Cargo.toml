[package]
name = "wfb_rs"
version = "0.1.0"
edition = "2021"
publish = false

[dependencies]
raptorq = "*"
clap = { version = "4", features = ["derive"] }
