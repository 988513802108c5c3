[package]
name = "eager_scheduler"
version = "0.1.0"
edition = "2021"
publish = false

[dependencies]
async-trait = "0.1"
parking_lot = "0.12"
prometheus = "0.13"
tracing = "0.1"
