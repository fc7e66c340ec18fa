[package]
name = "stdio_inspect"
version = "0.1.0"
edition = "2021"
publish = false

[dependencies]
tokio = { version = "1", default-features = false, features = ["io-std", "io-util", "net", "process", "rt-multi-thread", "sync", "time"] }
