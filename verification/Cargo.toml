[package]
name = "echo_server"
version = "0.1.0"
edition = "2021"
publish = false

[dependencies]
zerocopy = { version = "0.7", features = ["derive"] }
