[package]
name = "dp_graph"
version = "0.1.0"
edition = "2021"
publish = false

[dependencies]
csv = "*"
ffi-support = "*"
itertools-num = "*"
ndarray = "*"
ndarray-stats = "*"
num = "*"
prost = { version = "*", features = ["derive"] }
rand = "*"
