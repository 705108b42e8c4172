[package]
name = "hproxy_core"
version = "0.1.0"
edition = "2021"
publish = false

[dependencies]
mio = { version = "1", features = ["os-poll", "net"] }
