[package]
name = "cst"
version = "0.1.0"
edition = "2021"
publish = false

[dependencies]
bincode = "1"
capnp = "0.14"
chrono = "0.4"
febft = "*"
futures-timer = "3"
intmap = "0.7"
mimalloc = { version = "0.1", default-features = false }
nolock = "*"
num_cpus = "1"
rand_core = { version = "0.6", features = ["getrandom"] }
