[package]
name = "maincore"
version = "0.1.0"
edition = "2021"
publish = false

[dependencies]
sha3 = "*"
secp256k1 = "*"
num-bigint = "*"
num-traits = "*"
chrono = "*"
tokio = { version = "*", features = ["fs", "rt", "rt-multi-thread", "macros", "io-util"] }
