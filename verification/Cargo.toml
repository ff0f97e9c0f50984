[package]
name = "port_sniffer"
version = "0.1.0"
edition = "2021"
publish = false

[dependencies]
clap = "4"
futures = "0.3"
indicatif = "0.17"
tokio = { version = "1", features = ["full"] }
tokio-stream = "0.1"
