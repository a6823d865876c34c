[package]
name = "workspace_labels"
version = "0.1.0"
edition = "2021"
publish = false

[dependencies]
anyhow = "1"
flexi_logger = "*"
log = "0.4"
tokio = { version = "1", features = ["rt", "macros", "sync"] }
tokio-i3ipc = "*"
tokio-stream = "*"
