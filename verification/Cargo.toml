[package]
name = "rs1030"
version = "0.1.0"
edition = "2021"
publish = false

[dependencies]
clap = { version = "=4.6.7", features = ["derive"] }
deku = "=0.20.3"
desperado = { version = "=0.5.1", features = ["hackrf"] }
futures = "=0.3.34"
num-complex = "=0.4.6"
serde = { version = "=1.0.229", features = ["derive"] }
serde_json = "=1.0.154"
shellexpand = "=3.1.2"
tokio = { version = "=1.54.1", features = ["macros", "rt-multi-thread"] }
url = "=2.5.8"
