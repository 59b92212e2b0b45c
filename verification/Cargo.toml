[package]
name = "shuvarie_core"
version = "0.1.0"
edition = "2021"
publish = false

[dependencies]
regex = "=1.13.1"
similar = { version = "=3.2.1", features = ["inline", "unicode"] }
serde = { version = "1", features = ["derive"] }
serde_json = "1"
kdl = "=6.7.1"
miette = "7"
selune = "=0.1.0"
yaml_serde = "=0.10.7"
dirs = "6"
uuid = { version = "1", features = ["v7"] }
tokio = { version = "1", features = ["full"] }
futures-util = "0.3"

[dev-dependencies]
tempfile = "3"
