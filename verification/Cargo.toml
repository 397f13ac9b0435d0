[package]
name = "archive_list"
version = "0.1.0"
edition = "2021"
publish = false

[dependencies]
anyhow = "*"
chrono = "*"
clap = { version = "*", features = ["derive"] }
clap_complete = "*"
directories = "*"
futures = "*"
governor = "*"
reqwest = { version = "*", default-features = false }
reqwest-middleware = "*"
tokio = { version = "*", features = ["full"] }
url = "*"
urlencoding = "*"
