[package]
name = "payments_engine"
version = "0.1.0"
edition = "2021"
publish = false

[dependencies]
crossbeam-channel = "0.5"
csv = "1"
num_cpus = "1"
serde = { version = "1", features = ["derive"] }
thiserror = "1"
threadpool = "1"
