[package]
name = "plc_poll"
version = "0.1.0"
edition = "2021"
publish = false

[dependencies]
ads = "*"
clap = { version = "4", features = ["derive"] }
rand = "0.8"
