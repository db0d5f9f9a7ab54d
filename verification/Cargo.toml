[package]
name = "build-a-bitorrent-tracker"
version = "0.1.0"
edition = "2021"
publish = false

[dependencies]
axum = "0.6"
bendy = "0.3"
rand = "0.8"
serde = { version = "1", features = ["derive"] }
tokio = { version = "1", features = ["macros", "rt-multi-thread", "sync"] }
urlencoding = "2"
