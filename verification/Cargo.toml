[package]
name = "remote_executor"
version = "0.1.0"
edition = "2021"
publish = false

[dependencies]
anyhow = "1"
clap = { version = "4", features = ["derive"] }
diffy = "0.4"
file-id = "0.2"
futures-util = "0.3"
globset = "0.4"
grep-matcher = "0.1"
grep-regex = "0.1"
grep-searcher = "0.1"
ignore = "0.4"
serde = { version = "1", features = ["derive"] }
serde_json = "1"
sha2 = "0.10"
shell-words = "1"
tokio = { version = "1", features = ["full"] }
tokio-tungstenite = "*"
unescaper = "*"
