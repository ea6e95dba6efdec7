[package]
name = "wayland_lock"
version = "0.1.0"
edition = "2021"
publish = false

[dependencies]
mio = { version = "*", features = ["net", "os-poll"] }
tracing = "*"
tracing-subscriber = "*"
