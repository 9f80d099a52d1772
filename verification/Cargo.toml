[package]
name = "goaway_retry"
version = "0.1.0"
edition = "2021"
publish = false

[dependencies]
bytes = "=1.12.1"
h2 = "=0.4.20"
http = "=1.5.0"
http-body = "=1.0.1"
http-body-util = "=0.1.5"
hyper = { version = "=1.12.0", features = ["client", "http1", "http2"] }
tokio = { version = "=1.54.1", features = ["sync", "rt", "io-util", "time"] }
tower-service = "=0.3.3"
tracing = "=0.1.44"
