[package]
name = "blog"
version = "0.1.0"
edition = "2021"
publish = false

[dependencies]
uuid = { version = "1", features = ["v5"] }
pulldown-cmark = "=0.9.6"
syntect = "5"
notify = "=4.0.18"
tokio = { version = "1", features = ["sync", "rt-multi-thread"] }
