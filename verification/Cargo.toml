[package]
name = "dinotty"
version = "0.1.0"
edition = "2021"
publish = false

[dependencies]
regex = "1"
serde = { version = "1", features = ["derive"] }
tokio = { version = "1", features = ["sync", "time", "rt"] }
vte = "0.13"
