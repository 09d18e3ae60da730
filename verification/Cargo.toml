[package]
name = "ethcall"
version = "0.1.0"
edition = "2021"
publish = false

[dependencies]
web3 = { version = "*", default-features = false, features = ["signing", "http", "ws-tokio"] }
secp256k1 = "*"
zeroize = "*"
json = "*"
hex = "*"
tokio = { version = "*", default-features = false, features = ["rt", "time"] }
futures = "*"
