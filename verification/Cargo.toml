[package]
name = "wmde-files"
version = "0.1.0"
edition = "2021"
publish = false

[dependencies]
roxmltree = "=0.21.2"
log = "=0.4.35"
serde = { version = "=1.0.229", features = ["derive"] }
tokio = { version = "=1.54.1", features = ["sync", "rt", "time", "macros"] }
zbus = { version = "=6.2.1", default-features = false, features = ["tokio", "proxy"] }
atomic_float = "=1.1.0"
