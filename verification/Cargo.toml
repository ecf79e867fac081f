[package]
name = "zenoh_flow"
version = "0.1.0"
edition = "2021"
publish = false

[dependencies]
anyhow = "1"
handlebars = "4"
serde = { version = "1", features = ["derive"] }
serde_json = "1"
serde_yaml = "0.9"
