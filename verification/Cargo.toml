[package]
name = "fast_log"
version = "0.1.0"
edition = "2021"
publish = false

[dependencies]
may = "*"
chrono = "*"
log = "*"
parking_lot = "*"
