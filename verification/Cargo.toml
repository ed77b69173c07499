[package]
name = "runtime_format"
version = "0.1.0"
edition = "2021"

[dependencies]
tinyvec = { version = "1", features = ["alloc"] }
