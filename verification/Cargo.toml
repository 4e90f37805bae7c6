[package]
name = "clevert"
version = "0.1.0"
edition = "2021"
publish = false

[dependencies]
libc = "=0.2.190"
num_cpus = "=1.17.0"
serde = { version = "=1.0.229", features = ["derive"] }
toml = "=1.1.6"
