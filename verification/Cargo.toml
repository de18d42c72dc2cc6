[package]
name = "memory_strategy"
version = "0.1.0"
edition = "2021"
publish = false

[dependencies]
serde_json = "=1.0.154"
tracing = "=0.1.44"
