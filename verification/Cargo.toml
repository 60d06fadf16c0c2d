[package]
name = "backend"
version = "0.1.0"
edition = "2021"
publish = false

[dependencies]
egg = "*"
egraph-serialize = "*"
itertools = "*"
libc = "*"
pyo3 = "*"
serde = { version = "*", features = ["derive"] }
serde_json = "*"
