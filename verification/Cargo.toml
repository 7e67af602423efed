[package]
name = "cobalt_core"
version = "0.1.0"
edition = "2021"
publish = false

[dependencies]
reqwest = { version = "0.12", default-features = false, features = ["json", "stream"] }
serde = { version = "1", features = ["derive"] }
serde_json = "1"
tokio = { version = "1", features = ["rt", "macros", "process", "io-util", "sync", "time", "fs"] }
futures-util = "0.3"
arboard = { version = "3", default-features = false }
rfd = "*"
