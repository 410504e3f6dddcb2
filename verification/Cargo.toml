[package]
name = "socketpv"
version = "0.1.0"
edition = "2021"
publish = false

[dependencies]
chrono = "0.4"
hex = "0.4"
ed25519-dalek = "2"
