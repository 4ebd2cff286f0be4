[package]
name = "rtar"
version = "0.1.0"
edition = "2021"
publish = false

[dependencies]
cpal = "0.15"
lazy_static = "1"
ringbuf = "0.3"
ruopus = "0.1"
socket2 = "0.5"
tokio = { version = "1", features = ["net", "time", "rt"] }
