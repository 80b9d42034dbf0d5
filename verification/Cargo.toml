[package]
name = "home_web"
version = "0.1.0"
edition = "2021"
publish = false

[dependencies]
simple-dns = "*"
rand = "0.9"
dashmap = "6"
bazuka = "*"
gethostname = "*"
local-ip-address = "*"
num_cpus = "1"
socket2 = "*"
async-channel = "2"
tokio = { version = "1", features = ["full"] }
