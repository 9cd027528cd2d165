[package]
name = "barker"
version = "0.1.0"
edition = "2021"
publish = false

[dependencies]
flume = { version = "*", default-features = false }
thiserror = "*"
