[package]
name = "zk_circuits"
version = "0.1.0"
edition = "2021"
publish = false

[dependencies]
k256 = "=0.13.4"
elliptic-curve = { version = "=0.13.8", features = ["sec1", "arithmetic"] }
rand = "=0.8.8"
serde = { version = "=1.0.229", features = ["derive"] }
serde_json = "=1.0.154"
thiserror = "=1.0.69"
polynomial = "*"
