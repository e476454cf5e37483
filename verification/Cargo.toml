[package]
name = "device_bus"
version = "0.1.0"
edition = "2021"
publish = false

[dependencies]
mio = { version = "*", features = ["os-poll", "os-ext"] }
termios = "*"
uuid = "*"
