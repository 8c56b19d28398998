[package]
name = "kiacha_kernel"
version = "0.1.0"
edition = "2021"
publish = false

[dependencies]
uuid = { version = "=1.27.0", features = ["v4"] }
sysinfo = "=0.39.6"
wasmtime = "=48.0.5"
chrono = "=0.4.45"
