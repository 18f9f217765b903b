[package]
name = "etcd_registry"
version = "0.1.0"
edition = "2021"
publish = false

[dependencies]
color-eyre = "*"
etcd-client = "*"
serde = { version = "*", features = ["derive"] }
tokio = { version = "*", features = ["rt-multi-thread", "time", "macros"] }
tracing = "*"
