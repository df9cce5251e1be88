[package]
name = "filedrop"
version = "0.1.0"
edition = "2021"
publish = false

[dependencies]
anyhow = "=1.0.104"
clap = { version = "=4.6.7", features = ["derive"] }
regex = "=1.13.1"
salvo = { version = "=1.0.1", features = ["serve-static", "anyhow"] }
tokio = { version = "=1.53.2", features = ["fs", "macros", "rt-multi-thread"] }
tracing = "=0.1.44"
tracing-subscriber = "=0.3.23"
