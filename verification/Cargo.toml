[package]
name = "uexec"
version = "0.1.0"
edition = "2021"
publish = false

[dependencies]
crossbeam-deque = "0.8"
crossbeam-utils = "0.8"
fastrand = "2"
flume = "0.11"
once_cell = "1"
parking = "2"
parking_lot = "0.12"
