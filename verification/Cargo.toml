[package]
name = "aeron_subscription"
version = "0.2.0"
edition = "2021"
publish = false

[dependencies]
arc-swap = "1"
