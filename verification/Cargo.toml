[package]
name = "openshell"
version = "0.1.0"
edition = "2021"
publish = false

[dependencies]
glob = "0.3"
hickory-proto = { version = "*", default-features = false, features = ["std"] }
libc = "0.2"
miette = "7"
prost-types = "0.14"
regex = "1"
serde = { version = "1", features = ["derive"] }
serde_json = "1"
sha2 = "0.10"
thiserror = "2"
tokio = { version = "1", features = ["full"] }
tokio-stream = "0.1"
tonic = { version = "0.14", default-features = false }
tracing = "0.1"
uuid = { version = "1", features = ["v4"] }
