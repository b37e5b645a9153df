[package]
name = "docker_proxy_filter"
version = "0.1.0"
edition = "2021"
publish = false

[dependencies]
dotenvy = "0.15"
envy = "0.4"
http = "1"
ntex = { version = "2", features = ["tokio"] }
regex = "1"
serde = { version = "1", features = ["derive"] }
serde_json = "1"
tokio = { version = "1", features = ["full"] }
tracing = "0.1"
tracing-subscriber = { version = "0.3", features = ["env-filter"] }
url = "2"
