[package]
name = "tick_relay"
version = "0.1.0"
edition = "2021"
publish = false

[dependencies]
tungstenite = "=0.19.0"
