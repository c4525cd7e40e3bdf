[package]
name = "cake"
version = "0.1.0"
edition = "2021"
publish = false

[dependencies]
sha2 = "*"
serde = { version = "*", features = ["derive"] }
serde_json = "*"
anyhow = "*"
reqwest = { version = "*", default-features = false, features = ["blocking"] }
rayon = "*"
indicatif = "*"
clap = { version = "*", features = ["derive"] }
axum = "*"
tokio = { version = "*", features = ["rt-multi-thread", "net", "macros"] }
tower-http = { version = "*", features = ["fs", "trace"] }
tracing-subscriber = "*"
