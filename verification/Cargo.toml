[package]
name = "pfsextractor"
version = "1.0.2"
edition = "2021"

[dependencies]
flate2 = "1"
