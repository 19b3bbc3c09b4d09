[package]
name = "mgfy"
version = "0.1.0"
edition = "2021"
publish = false

[dependencies]
clap = { version = "4", features = ["derive"] }
directories = "*"
mongodb = { version = "3", features = ["sync"] }
serde = { version = "1", features = ["derive"] }
serde_json = "1"
tabled = "*"
