[package]
name = "mlua-isle"
version = "0.8.0"
edition = "2021"
publish = false

[dependencies]
mlua = { version = "0.12", features = ["lua54", "vendored", "async", "serde"] }
serde_json = "1"
thiserror = "2"
tokio = { version = "1", features = ["macros", "rt", "sync", "time"] }
