[package]
name = "lis2dw12"
version = "0.1.0"
edition = "2021"
publish = false

[dependencies]
embedded-hal = "0.2"
accelerometer = "0.12"
