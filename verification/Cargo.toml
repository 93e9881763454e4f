[package]
name = "commitlint"
version = "0.1.0"
edition = "2021"
publish = false

[dependencies]
hex = "=0.4.3"
tokio = { version = "=1.54.1", features = ["macros", "process", "rt-multi-thread", "time"] }
