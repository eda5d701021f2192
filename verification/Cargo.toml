[package]
name = "wacksy"
version = "0.2.0"
edition = "2021"
publish = false

[dependencies]
chrono = "0.4"
flate2 = "1"
sha2 = "0.10"
url = "2"
