[package]
name = "server"
version = "0.1.0"
edition = "2021"
publish = false

[dependencies]
aria2-gid = "=0.1.0"
sanitize-filename = "=0.6.0"
actix-web = "=4.15.0"
actix-ws = "=0.4.0"
fast-down = { version = "=6.0.1", features = ["reqwest", "file", "reqwest-tls"] }
futures-util = "=0.3.34"
kanal = "=0.1.1"
log = "=0.4.34"
parking_lot = "=0.12.5"
reqwest = { version = "=0.13.5", default-features = false, features = ["brotli", "gzip", "deflate", "zstd", "http2", "native-tls"] }
spin = "=0.12.3"
tokio = { version = "=1.53.2", features = ["full"] }
url = "=2.5.8"
