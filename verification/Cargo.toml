[package]
name = "runops_proxy"
version = "0.1.0"
edition = "2021"
publish = false

[dependencies]
sqlparser = "*"
chrono = "*"
ritelinked = "*"
msql-srv = "*"
reqwest = { version = "*", default-features = false, features = ["blocking", "json"] }
serde = { version = "*", features = ["derive"] }
serde_yaml = "*"
dirs = "*"
dashmap = "*"
