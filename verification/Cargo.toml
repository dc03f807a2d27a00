[package]
name = "bookmark_index"
version = "0.1.0"
edition = "2021"
publish = false

[dependencies]
tantivy = "*"
ruma = { version = "*", features = ["events"] }
tokio = { version = "1", features = ["sync"] }
futures-util = "0.3"
tracing = "0.1"
zeroize = "1"
