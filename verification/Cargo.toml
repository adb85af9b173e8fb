[package]
name = "agent_stream"
version = "0.1.0"
edition = "2021"
publish = false

[dependencies]
serde_json = "1"
uuid = { version = "1", features = ["v4"] }
libc = "0.2"
serde = { version = "1", features = ["derive"] }
which = "*"
dirs = "*"
