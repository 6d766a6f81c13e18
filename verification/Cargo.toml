[package]
name = "coopio"
version = "0.1.0"
edition = "2021"
publish = false

[dependencies]
httparse = "=1.10.1"
mio = { version = "=1.2.4", features = ["os-poll", "net", "os-ext"] }
log = "=0.4.34"
env_logger = "=0.11.11"
clap = "=4.6.7"
