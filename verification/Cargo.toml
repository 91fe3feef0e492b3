[package]
name = "minutecat"
version = "0.2.0"
edition = "2021"
publish = false

[dependencies]
regex = "*"
clap = { version = "*", features = ["derive"] }
dirs = "*"
reqwest = { version = "*", default-features = false, features = ["blocking"] }
