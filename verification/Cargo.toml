[package]
name = "fqlib"
version = "0.1.0"
edition = "2021"
publish = false

[dependencies]
anyhow = "=1.0.104"
clap = { version = "=3.2.25", default-features = false, features = ["std"] }
flate2 = "=1.1.10"
rand = { version = "=0.8.8", features = ["small_rng"] }
tracing = "=0.1.44"
tracing-subscriber = { version = "=0.3.23", features = ["env-filter"] }
