[package]
name = "dotfilr"
version = "0.1.0"
edition = "2021"
publish = false

[dependencies]
anyhow = "1"
clap = { version = "4", features = ["derive"] }
git2 = "0.18"
home = "0.5"
reqwest = "0.11"
tokio = { version = "1", features = ["macros", "rt-multi-thread"] }
