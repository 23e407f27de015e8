[package]
name = "meetwo"
version = "0.1.0"
edition = "2021"
publish = false

[dependencies]
regex = "1"
poise = "0.6"
tokio = { version = "1", features = ["macros", "rt-multi-thread", "process", "time"] }
dotenvy = "0.15"
