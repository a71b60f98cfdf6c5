[package]
name = "lolserialize"
version = "0.1.0"
edition = "2021"
publish = false

[dependencies]
ariadne = "0.4"
tokio = { version = "1", features = ["rt", "sync", "net", "io-util", "macros"] }
