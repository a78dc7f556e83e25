[package]
name = "madsim-tonic"
version = "0.1.0"
edition = "2021"
publish = false

[dependencies]
async-stream = "0.3"
futures = "0.3"
log = "0.4"
madsim = "0.2"
tonic = "0.8"
tower = "0.4"
