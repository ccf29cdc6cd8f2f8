[package]
name = "ospf"
version = "0.1.0"
edition = "2021"
publish = false

[dependencies]
pnet = "*"
tokio = { version = "1", features = ["full"] }
lazy_static = "1"
clap = "4"
rustyline = { version = "*", features = ["derive"] }
colored = "2"
bytes = "1"
socket2 = "0.5"
