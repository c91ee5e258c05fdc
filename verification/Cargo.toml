[package]
name = "uartcat"
version = "0.1.0"
edition = "2021"
publish = false

[dependencies]
heapless = "0.8"
rand = "0.8"
packbytes = "*"
bilge = "*"
thiserror = "1"
tokio = { version = "1", features = ["io-util", "time", "rt"] }
serial2-tokio = "*"
embedded-io-async = "0.6"
