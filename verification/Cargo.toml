[package]
name = "mindmap"
version = "0.1.0"
edition = "2021"
publish = false

[dependencies]
uuid = { version = "*", features = ["v4"] }
axum = "*"
tokio = { version = "*", features = ["macros", "rt-multi-thread", "signal", "net"] }
tracing = "*"
tracing-subscriber = "*"
async-stream = "*"
argh = "*"
ron = "*"
serde = { version = "*", features = ["derive"] }
