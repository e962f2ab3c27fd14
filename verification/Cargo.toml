[package]
name = "xfutebol"
version = "0.1.0"
edition = "2021"
publish = false

[dependencies]
once_cell = "*"
uuid = { version = "*", features = ["v4"] }
