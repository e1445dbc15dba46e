[package]
name = "metrics_provider"
version = "0.1.0"
edition = "2021"
publish = false

[dependencies]
k8s-metrics = "*"
k8s-openapi = { version = "*", features = ["latest"] }
