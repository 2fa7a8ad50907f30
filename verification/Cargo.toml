[package]
name = "mdv"
version = "0.1.0"
edition = "2021"
publish = false

[dependencies]
axum = "0.8"
dirs = "*"
html-escape = "0.2"
libc = "0.2"
open = "*"
percent-encoding = "2"
pulldown-cmark = "*"
serde = { version = "1", features = ["derive"] }
serde_json = "1"
tokio = { version = "1", features = ["macros", "rt-multi-thread", "net", "signal"] }
