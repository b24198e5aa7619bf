[package]
name = "mdr_flash"
version = "0.1.0"
edition = "2021"
publish = false

[dependencies]
ihex = "1"
serialport = { version = "3", default-features = false }
structopt = "0.3"
anyhow = "1"
console = "0.15"
log = "0.4"
env_logger = "0.9"
