[package]
name = "neo4rs"
version = "0.1.0"
edition = "2021"
publish = false

[dependencies]
bytes = "=1.12.1"
chrono = { version = "=0.4.45", default-features = false, features = ["std"] }
time = "=0.3.55"
deadpool = { version = "=0.13.1", default-features = false, features = ["managed"] }
futures = "=0.3.34"
tokio = { version = "=1.54.1", features = ["sync", "net", "io-util", "rt"] }
serde = { version = "=1.0.229", features = ["derive"] }
