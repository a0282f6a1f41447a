[package]
name = "rics"
version = "0.1.0"
edition = "2021"
publish = false

[dependencies]
clap = "=2.34.0"
env_logger = "=0.7.1"
libloading = "=0.5.2"
log = "=0.4.34"
rand = "=0.7.3"
rlua = "=0.19.8"
serialport = { version = "=3.3.0", default-features = false }
socketcan = "=1.7.0"

[dev-dependencies]
protobuf = "=2.28.0"
