[package]
name = "busman"
version = "0.1.0"
edition = "2021"
publish = false

[dependencies]
byteorder = "1"
num-traits = "0.2"
libc = "0.2"
log = "0.4"
env_logger = "0.11"
