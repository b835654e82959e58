[package]
name = "dbot"
version = "0.1.0"
edition = "2021"
publish = false

[dependencies]
anyhow = "1"
clap = { version = "4", features = ["derive"] }
directories = "*"
globset = "0.4"
serde = { version = "1", features = ["derive"] }
serde_yaml = "0.9"
tera = "1"
thiserror = "1"
time = { version = "0.3", features = ["serde"] }
tracing = "0.1"
tracing-subscriber = "0.3"
