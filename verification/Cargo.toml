[package]
name = "rocket"
version = "0.4.0-dev"
edition = "2021"
publish = false

[dependencies]
futures = "=0.1.31"
futures-cpupool = "=0.1.8"
hyper = "=0.11.27"
tokio-core = "=0.1.18"
yansi = "=0.3.4"
state = "0.4"
rustls = "=0.16.0"
tokio-rustls = "=0.12.3"
