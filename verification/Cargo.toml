[package]
name = "freedom_network"
version = "0.1.0"
edition = "2021"
publish = false

[dependencies]
sha3 = "0.10"
hex = "0.4"
chacha20poly1305 = "0.10"
rand = "0.8"
tokio = { version = "1", features = ["rt-multi-thread", "net", "io-util", "macros", "time"] }
quinn = "0.10"
rustls = "0.21"
rcgen = "0.11"
chrono = "0.4"
