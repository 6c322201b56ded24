[package]
name = "fosiaudio"
version = "0.1.0"
edition = "2021"
publish = false

[dependencies]
rand = "0.9"
chrono = { version = "0.4", features = ["serde"] }
serde_yaml = "0.9"
url_encoded_data = "*"
tempfile = "3"
anyhow = "1"
log = "0.4"
clap = { version = "4", features = ["derive"] }
stderrlog = "*"
thiserror = "*"
tokio = { version = "1", features = ["full"] }
hyper = { version = "1", features = ["http1", "server"] }
hyper-util = { version = "0.1", features = ["tokio"] }
http = "1"
http-body-util = "0.1"
serde = { version = "1", features = ["derive"] }
simple-error = "*"
