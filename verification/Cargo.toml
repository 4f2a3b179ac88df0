[package]
name = "table"
version = "0.1.0"
edition = "2021"
publish = false

[dependencies]
kserd = "=0.5.0"
