[package]
name = "trivia_server"
version = "0.1.0"
edition = "2021"
publish = false

[dependencies]
anyhow = "1"
bson = "2"
enet = "0.3"
mysql = "*"
rand = "0.8"
