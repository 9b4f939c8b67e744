[package]
name = "socket_server"
version = "0.1.0"
edition = "2021"
publish = false

[dependencies]
goxoy-address-parser = "*"
