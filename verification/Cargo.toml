[package]
name = "conferencier"
version = "0.1.0"
edition = "2021"
publish = false

[dependencies]
toml = "0.8"
bytemuck = "1"
tokio = { version = "1", default-features = false, features = ["sync", "fs", "rt"] }
