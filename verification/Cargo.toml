[package]
name = "dht22"
version = "0.1.0"
edition = "2021"
publish = false

[dependencies]
caps = "0.3.4"
clap = "2.34.0"
common_failures = "0.1.1"
failure = "0.1.8"
libc = "0.2"
log = "0.4"
redis = "0.27.6"
stderrlog = "0.4.3"
thread-priority = "*"
