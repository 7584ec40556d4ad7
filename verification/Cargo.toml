[package]
name = "graph_backend"
version = "0.1.0"
edition = "2021"
publish = false

[dependencies]
anyhow = "1"
async-graphql = "5"
async-graphql-axum = "5"
axum = "0.6"
bolt-client = "*"
bolt-proto = "*"
clap = { version = "4", features = ["derive"] }
deadpool-bolt = "*"
rand = "0.8"
tokio = { version = "1", features = ["macros", "rt"] }
tracing-subscriber = "0.3"
url = "2"
