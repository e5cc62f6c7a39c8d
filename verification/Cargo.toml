[package]
name = "vector_moogsoft"
version = "0.1.0"
edition = "2021"
publish = false

[dependencies]
bytesize = "=1.3.3"
chrono = "=0.4.45"
futures = "0.3"
hostname = "0.3"
http = "=0.2.12"
metrics = "=0.17.1"
serde = { version = "=1.0.229", features = ["derive"] }
serde_json = "=1.0.154"
tokio = { version = "1", features = ["rt", "macros"] }
tower = { version = "0.4", features = ["util"] }
tracing = "=0.1.44"
