[package]
name = "srvzio"
version = "0.1.0"
edition = "2021"
publish = false

[dependencies]
crossbeam-channel = "=0.5.17"
ctrlc = { version = "=3.5.2", features = ["termination"] }

[dev-dependencies]
threadpool = "=1.8.1"
