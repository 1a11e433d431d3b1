[package]
name = "zync_core"
version = "0.1.0"
edition = "2021"
publish = false

[dependencies]
anyhow = "*"
dirs = "*"
portable-pty = "*"
russh = "*"
russh-keys = "*"
russh-sftp = "*"
serde = { version = "*", features = ["derive"] }
serde_json = "*"
tokio = { version = "*", features = ["full"] }
