[package]
name = "cgd1_tools"
version = "0.1.0"
edition = "2021"
publish = false

[dependencies]
shell-words = "1"
serde = { version = "1", features = ["derive"] }
toml = "*"
dirs = "*"
chrono = "0.4"
clap = { version = "4", features = ["derive"] }
thiserror = "*"
miette = { version = "*", features = ["fancy"] }
tokio = { version = "1", features = ["full"] }
tracing = "0.1"
tracing-subscriber = { version = "0.3", features = ["env-filter"] }
rustyline = "*"
