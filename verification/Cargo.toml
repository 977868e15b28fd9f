[package]
name = "range_bench"
version = "0.1.0"
edition = "2021"
publish = false

[dependencies]
clap = { version = "*", features = ["derive"] }
futures = "*"
object_store = "*"
rand = "*"
tokio = { version = "*", features = ["rt-multi-thread", "macros", "io-util"] }
url = "*"
