[package]
name = "facto_loop_miner"
version = "0.1.0"
edition = "2021"
publish = false

[dependencies]
itertools = "0.14.0"
tracing = "0.1.44"
mimalloc = "0.1.52"
