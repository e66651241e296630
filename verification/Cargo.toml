[package]
name = "lavish"
version = "0.2.0"
edition = "2021"
publish = false

[dependencies]
rmp = "=0.8.15"
rmp-serde = "=1.3.1"
serde = { version = "=1.0.229", features = ["derive"] }
netbuf = "=0.4.1"
pretty-hex = "=0.1.1"
json = "=0.11.15"
lazy_static = "=1.5.1"
env_logger = "=0.6.2"
color-backtrace = "=0.1.3"
bencher = "=0.1.5"
futures = { version = "=0.3.34", features = ["thread-pool"] }
tokio = "=0.1.22"
tokio-io = "=0.1.13"
async-timer = "=0.7.4"
erased-serde = "=0.3.31"
