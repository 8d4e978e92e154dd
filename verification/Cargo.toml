[package]
name = "hit"
version = "0.1.0"
edition = "2021"
publish = false

[dependencies]
ansi_term = "*"
url = "*"
hyper = { version = "*", features = ["client", "http1"] }
hyper-util = { version = "*", features = ["tokio"] }
http-body-util = "*"
tokio = { version = "*", features = ["rt", "net"] }
