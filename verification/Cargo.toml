[package]
name = "collab_ingest"
version = "0.1.0"
edition = "2021"
publish = false

[dependencies]
brotli = "*"
serde = { version = "*", features = ["derive"] }
serde_json = "*"
uuid = "*"
rayon = "*"
tokio = { version = "*", features = ["rt"] }
futures-util = "*"
