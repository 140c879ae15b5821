[package]
name = "risingwave"
version = "0.1.0"
edition = "2021"
publish = false

[dependencies]
async-trait = "0.1"
bytes = "1"
futures = "0.3"
itertools = "0.10"
prost = "0.11"
tracing = "0.1"
