[package]
name = "ppk2"
version = "0.1.0"
edition = "2021"
publish = false

[dependencies]
clap = { version = "*", features = ["derive"] }
crossbeam = "*"
ctrlc = "*"
serialport = { version = "*", default-features = false }
thiserror = "*"
tracing = "*"
tracing-subscriber = "*"
