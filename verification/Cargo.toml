[package]
name = "operation_pool"
version = "0.1.0"
edition = "2021"
publish = false

[dependencies]
parking_lot = "=0.13.0"
ring = "=0.17.14"
serde = "=1.0.229"
