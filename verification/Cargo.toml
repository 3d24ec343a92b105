[package]
name = "smaf_player"
version = "0.1.0"
edition = "2021"
publish = false

[dependencies]
smaf = "*"
midir = "0.10"
rodio = { version = "0.20", default-features = false }
tokio = { version = "1", features = ["macros", "rt", "time"] }
