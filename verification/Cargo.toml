[package]
name = "localshare"
version = "0.1.0"
edition = "2021"
publish = false

[dependencies]
sha2 = "0.10"
rand = "0.9"
chrono = { version = "0.4", default-features = false, features = ["std"] }
httparse = "1"
rcgen = "0.13"
serde = { version = "1", features = ["derive"] }
serde_json = "1"
tokio = { version = "1", features = ["full"] }
tokio-util = { version = "0.7", features = ["io"] }
futures-util = "0.3"
axum = "0.8"
reqwest = { version = "0.12", default-features = false, features = ["rustls-tls", "json", "socks", "stream", "cookies", "deflate", "zstd", "brotli"] }
hyper = "1"
hyper-util = { version = "0.1", features = ["full"] }
tower = "0.5"
log = "0.4"
anyhow = "1"
socket2 = "0.5"
async-socks5 = "0.6"
url = "2"
rustls = { version = "0.23", default-features = false, features = ["ring", "std", "logging", "tls12"] }
tokio-rustls = { version = "0.26", default-features = false, features = ["ring", "logging", "tls12"] }
rustls-pemfile = "2"
rustls-native-certs = "0.8"
pem = "3"
zstd = "0.13"
network-interface = "2"
sysinfo = "0.33"
socks5-server = "0.10"
