[package]
name = "logview"
version = "0.1.0"
edition = "2021"
publish = false

[dependencies]
memchr = "*"
regex = "*"
serde = { version = "*", features = ["derive"] }
serde_json = "*"
memmap2 = "*"
datafusion = "*"
tokio = { version = "*", features = ["rt-multi-thread"] }
rayon = "*"
num_cpus = "*"
