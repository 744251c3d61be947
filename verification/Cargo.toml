[package]
name = "sveltum"
version = "0.1.0"
edition = "2021"
publish = false

[dependencies]
anyhow = "=1.0.104"
axum-core = "=0.5.6"
bytes = "=1.12.1"
futures-util = "=0.3.34"
http = "=1.3.1"
http-body = "=1.1.0"
http-body-util = "=0.1.5"
http-range-header = "=0.4.2"
httpdate = "=1.0.3"
mime = "=0.3.17"
mime_guess = "=2.0.5"
percent-encoding = "=2.3.2"
serde = { version = "=1.0.229", features = ["derive"] }
tokio = { version = "=1.54.1", features = ["full"] }
tokio-util = { version = "=0.7.20", features = ["io"] }
tower-http = { version = "=0.6.11", features = ["fs"] }
tower-service = "=0.3.3"
tracing = "=0.1.44"
