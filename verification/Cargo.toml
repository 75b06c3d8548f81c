[package]
name = "cast_ledger"
version = "0.1.0"
edition = "2021"
publish = false

[dependencies]
indexmap = "=2.14.2"
snarkvm-console-network = "=4.11.0"
snarkvm-console-types = "=4.11.0"
