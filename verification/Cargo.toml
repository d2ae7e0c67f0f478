[package]
name = "aa"
version = "0.1.0"
edition = "2021"
publish = false

[dependencies]
base64 = "0.13"
clap = { version = "3", features = ["derive", "env"] }
hyper = { version = "0.14", features = ["client", "http1", "http2", "stream", "tcp"] }
hyper-rustls = "0.22"
jsonpath_lib = "0.3"
regex = "1"
serde = { version = "1", features = ["derive"] }
serde_json = "1"
serde_yaml = "0.8"
tokio = { version = "1", features = ["fs", "io-std", "io-util", "macros", "rt-multi-thread"] }
tokio-util = { version = "0.7", features = ["codec"] }
walkdir = "2"
