[package]
name = "luma-core"
version = "0.1.0"
edition = "2021"
publish = false

[dependencies]
btleplug = "*"
futures = "0.3"
opus = "*"
tokio = { version = "1", features = ["macros", "rt-multi-thread", "sync", "time"] }
uniffi = { version = "*", features = ["cli"] }
ureq = "3"
