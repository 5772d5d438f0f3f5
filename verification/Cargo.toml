[package]
name = "medoxido"
version = "0.1.0"
edition = "2021"
publish = false

[dependencies]
anyhow = "*"
axum = "*"
clap = { version = "*", features = ["derive", "env"] }
dotenvy = "*"
env_logger = "*"
log = "*"
serde = { version = "*", features = ["derive"] }
thiserror = "*"
tokio = { version = "*", features = ["macros", "rt-multi-thread"] }
tower-http = { version = "*", features = ["trace"] }
