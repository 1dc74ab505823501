[package]
name = "splaycast"
version = "0.1.0"
edition = "2021"
publish = false

[dependencies]
arc-swap = "*"
crossbeam-queue = "*"
futures = "*"
