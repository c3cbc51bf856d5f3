[package]
name = "data_pipeline"
version = "0.1.0"
edition = "2021"
publish = false

[dependencies]
serde_json = "*"
octorust = "*"
mongodb = { version = "*", features = ["sync"] }
tokio = { version = "*", features = ["rt", "time"] }
colored = "*"
