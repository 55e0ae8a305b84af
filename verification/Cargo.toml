[package]
name = "backroll"
version = "0.1.0"
edition = "2021"
publish = false

[dependencies]
bytemuck = "1"
tracing = { version = "0.1", default-features = false, features = ["std"] }
