[package]
name = "pool_filters"
version = "0.1.0"
edition = "2021"
publish = false

[dependencies]
ethers = { version = "=2.0.14", default-features = false }
num-bigfloat = "=1.7.2"
async-trait = "=0.1.92"
spinoff = "=0.8.0"
