[package]
name = "relay_core"
version = "0.1.0"
edition = "2021"
publish = false

[dependencies]
axum = { version = "*", features = ["ws"] }
tokio = { version = "*", features = ["rt-multi-thread", "macros", "net"] }
futures-util = "*"
uuid = { version = "*", features = ["v4"] }
