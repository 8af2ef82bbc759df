[package]
name = "sozip"
version = "0.1.0"
edition = "2021"

[dependencies]
flate2 = "=1.1.5"
thiserror = "=2.0.21"
zip = "=2.6.1"
