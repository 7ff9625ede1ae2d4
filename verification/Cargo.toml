[package]
name = "heel_gun"
version = "0.1.0"
edition = "2021"
publish = false

[dependencies]
http = "0.1"
hyper = "0.12"
rand = "0.7"
rand_pcg = "0.2"
serde = { version = "1", features = ["derive"] }
serde_json = "1"
serde_yaml = "0.8"
itertools = "0.8"
structopt = "0.3"
failure = "0.1"
futures = "0.1"
tokio = "0.1"
tokio-fs = "0.1"
tokio-io = "0.1"
csv = "1"
env_logger = "0.6"
log = "0.4"
