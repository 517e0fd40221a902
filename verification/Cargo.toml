[package]
name = "rey"
version = "0.1.0"
edition = "2021"
publish = false

[dependencies]
anyhow = "1"
clap = { version = "4", features = ["derive"] }
duration-str = "*"
flexi_logger = "*"
http = "1"
human_bytes = "*"
log = "0.4"
reqwest = "0.12"
serde = { version = "1", features = ["derive"] }
tera = "1"
tokio = { version = "1", features = ["full"] }
