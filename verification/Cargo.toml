[package]
name = "goonj"
version = "0.1.0"
edition = "2021"
publish = false

[dependencies]
hisab = "1.4"
serde = { version = "1.0.228", features = ["derive"] }
thiserror = "2.0.18"
tracing = "0.1.44"
tracing-subscriber = "0.3.23"
