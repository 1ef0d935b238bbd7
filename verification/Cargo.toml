[package]
name = "rhustapp"
version = "0.1.0"
edition = "2021"
publish = false

[dependencies]
flate2 = "1"
hex = "0.4"
lazy_static = "1.4"
time = "0.3"
tungstenite = "0.21"
