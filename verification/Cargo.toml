[package]
name = "aleph-bft"
version = "0.1.0"
edition = "2021"
publish = false

[dependencies]
futures = "=0.3.34"
log = "=0.4.34"
tokio = { version = "=1.54.1", features = ["rt", "time"] }
