[package]
name = "zedra_sessions"
version = "0.1.0"
edition = "2021"
publish = false

[dependencies]
anyhow = "1"
chrono = "0.4"
data-encoding = "2"
futures = "0.3"
tracing = "0.1"
