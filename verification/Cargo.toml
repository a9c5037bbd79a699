[package]
name = "optpy"
version = "0.1.0"
edition = "2021"
publish = false

[dependencies]
anyhow = "=1.0.104"
proc-macro2 = "=1.0.107"
quote = "=1.0.47"
rustpython-parser = "=0.1.2"
thiserror = "=1.0.69"
