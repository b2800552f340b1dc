[package]
name = "wallet_engine"
version = "0.1.0"
edition = "2021"
publish = false

[dependencies]
rust_decimal = "=1.43.0"
grpcio = "*"
protobuf = "*"
