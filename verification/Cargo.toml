[package]
name = "golem_runner"
version = "0.1.0"
edition = "2021"
publish = false

[dependencies]
png = "=0.18.1"
anyhow = "=1.0.104"
serde = { version = "=1.0.229", features = ["derive"] }
serde_json = "=1.0.154"
regex = "1"
