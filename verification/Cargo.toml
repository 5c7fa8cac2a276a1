[package]
name = "world_host_server"
version = "0.5.0"
edition = "2021"
publish = false

[dependencies]
aes = "0.7"
anyhow = "1"
async-compression = { version = "0.4", features = ["tokio", "gzip"] }
cfb8 = "0.7"
chrono = "0.4"
clap = { version = "4", features = ["derive"] }
csv-async = { version = "1", features = ["tokio"] }
futures = "0.3"
md-5 = "0.10"
num-bigint = "0.4"
parse_duration = "2"
querystring = "1"
rand = "0.8"
reqwest = { version = "0.12", default-features = false, features = ["rustls-tls"] }
rsa = "0.9"
serde = { version = "1", features = ["derive"] }
serde_json = "1"
sha1 = "0.10"
socket2 = "0.5"
tokio = { version = "1", features = ["full"] }
tokio-util = { version = "0.7", features = ["io", "compat"] }
uuid = { version = "1", features = ["serde"] }
