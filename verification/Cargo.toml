[package]
name = "farmap"
version = "0.1.0"
edition = "2021"
publish = false

[dependencies]
chrono = { version = "0.4", features = ["serde"] }
serde = { version = "1", features = ["derive"] }
serde_json = "1"
serde-jsonlines = "*"
thiserror = "*"
itertools = "*"
log = "0.4"
reqwest = { version = "0.12", default-features = false, features = ["json", "rustls-tls"] }
url = "2"
tokio = { version = "1", features = ["macros", "rt-multi-thread", "net"] }
axum = "0.8"
tower-http = { version = "0.6", features = ["trace", "validate-request", "auth"] }
futures = "0.3"
clap = { version = "4", features = ["derive"] }
simple-log = "*"
simple_logger = "*"
tracing = "0.1"
