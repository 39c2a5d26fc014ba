[package]
name = "xscan"
version = "0.1.0"
edition = "2021"
publish = false

[dependencies]
url = "2"
reqwest = { version = "0.12", default-features = false }
tokio = { version = "1", features = ["rt-multi-thread", "macros"] }
futures = "0.3"
clap = { version = "4", features = ["derive"] }
