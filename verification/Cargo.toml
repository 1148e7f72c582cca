[package]
name = "kobuta"
version = "0.1.0"
edition = "2021"
publish = false

[dependencies]
dtoa = "0.4"
itoa = "0.4"
env_logger = "*"
log = "0.4"
structopt = "0.3"
