[package]
name = "livemd"
version = "0.1.0"
edition = "2021"
publish = false

[dependencies]
atty = "*"
clap = { version = "*", features = ["derive"] }
dirs = "*"
serde = { version = "*", features = ["derive"] }
serde_json = "*"
termimad = "*"
tokio = { version = "*", features = ["macros", "rt-multi-thread", "time", "io-std", "io-util"] }
