[package]
name = "russh_core"
version = "0.1.0"
edition = "2021"
publish = false

[dependencies]
russh-cryptovec = "*"
tokio = { version = "*", features = ["sync", "rt", "time", "io-util", "macros"] }
